//! The simulated body: position, velocity, mass, derived radius and an
//! opaque visual tag, together with the bounds the kernel maintains.

use vstd::prelude::*;
use crate::vec3::V3;
use crate::math::{cbrt_floor, cube, iabs};

verus! {

/// Number of sub-units per world unit: all positions, velocities,
/// masses and radii are integers counted in these sub-units.
pub const SCALE: i64 = 1_000_000;

/// Gravitational constant as the exact rational `G_NUM / G_DEN`
/// (the reference value 0.007).
pub const G_NUM: i64 = 7;

/// Denominator of the gravitational constant.
pub const G_DEN: i64 = 1000;

/// Largest admitted total system mass, in sub-units.
pub const MASS_MAX: i64 = 1_000_000_000_000;

/// Largest admitted magnitude of a position component, in sub-units.
pub const POS_MAX: i64 = 100_000_000_000;

/// Largest admitted magnitude of a velocity component, in sub-units
/// per step; gravity clamps here at the model's edge.
pub const VEL_MAX: i64 = 1_000_000_000_000;

/// Largest admitted number of live bodies.
pub const MAX_BODIES: usize = 10_000;

/// A single simulated mass point.
#[derive(Clone, Copy, PartialEq, Eq, Structural, Debug)]
pub struct Body {
    /// World-space location.
    pub pos: V3,
    /// Per-step displacement; gravity mutates it, integration applies it.
    pub vel: V3,
    /// Strictly positive mass in sub-units.
    pub mass: i64,
    /// Opaque visual tag, carried through merges and never interpreted.
    pub appearance: u32,
}

/// The bounds every live body satisfies.
pub open spec fn wf_body(b: Body) -> bool {
    &&& 1 <= b.mass <= MASS_MAX
    &&& iabs(b.pos.x as int) <= POS_MAX
    &&& iabs(b.pos.y as int) <= POS_MAX
    &&& iabs(b.pos.z as int) <= POS_MAX
    &&& iabs(b.vel.x as int) <= VEL_MAX
    &&& iabs(b.vel.y as int) <= VEL_MAX
    &&& iabs(b.vel.z as int) <= VEL_MAX
}

/// Squared distance between two bodies' positions, exactly.
pub open spec fn dist2_of(a: Body, b: Body) -> int {
    crate::math::sq(b.pos.x - a.pos.x)
        + crate::math::sq(b.pos.y - a.pos.y)
        + crate::math::sq(b.pos.z - a.pos.z)
}

/// The derived radius of a body of mass `m` sub-units: the floor of
/// `SCALE * cube_root(m / SCALE)`, which is `cube_root(m * SCALE^2)`.
pub open spec fn radius_spec(m: int) -> int {
    cbrt_floor(m * SCALE * SCALE)
}

/// Radius consistency: for every admitted mass the derived radius is
/// exactly the floor cube root of the mass — `radius^3 <= mass *
/// SCALE^2 < (radius+1)^3` — so any code path that changes mass gets
/// the matching radius by construction, since the radius is never
/// stored.
pub proof fn lemma_radius_consistency(m: int)
    requires
        1 <= m,
    ensures
        0 <= radius_spec(m),
        cube(radius_spec(m)) <= m * SCALE * SCALE < cube(radius_spec(m) + 1),
{
    assert(m * SCALE * SCALE >= 0) by (nonlinear_arith)
        requires m >= 1, SCALE as int == 1_000_000,
    ;
    crate::math::lemma_cbrt_floor_exists(m * SCALE * SCALE);
}

impl Body {
    /// A resting white unit-and-a-tenth star at the origin.
    pub fn star() -> (b: Body)
        ensures
            b.mass == 1_100_000int,
            b.vel == (V3 { x: 0, y: 0, z: 0 }),
            b.pos == (V3 { x: 0, y: 0, z: 0 }),
            b.appearance == 0xFF_FF_FF,
            wf_body(b),
    {
        Body {
            pos: V3 { x: 0, y: 0, z: 0 },
            vel: V3 { x: 0, y: 0, z: 0 },
            mass: 1_100_000,
            appearance: 0xFF_FF_FF,
        }
    }

    /// Radius derived from mass, never stored: the floor cube root of
    /// the mass, in sub-units.
    pub fn radius(&self) -> (r: i64)
        requires
            1 <= self.mass <= MASS_MAX,
        ensures
            r == radius_spec(self.mass as int),
            1 <= r <= 100_000_000,
            cube(r as int) <= self.mass * SCALE * SCALE < cube(r as int + 1),
    {
        let scaled: u128 = (self.mass as u128) * 1_000_000_000_000;
        let r = crate::math::icbrt(scaled);
        proof {
            assert(scaled == self.mass * SCALE * SCALE);
            assert(r as int <= 100_000_000) by (nonlinear_arith)
                requires
                    cube(r as int) <= scaled,
                    scaled <= 1_000_000_000_000_000_000_000_000,
            ;
            assert(1 <= r as int) by {
                assert(cube(1int) == 1);
                if r == 0 {
                    assert(cube(0int + 1) == 1);
                    assert(scaled < 1);
                }
            }
        }
        r as i64
    }
}

} // verus!
