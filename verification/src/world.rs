//! The live body collection and the per-step integrator, together with
//! the well-formedness the whole kernel maintains.

use vstd::prelude::*;
use crate::body::{Body, wf_body, MASS_MAX, MAX_BODIES, POS_MAX, VEL_MAX};
use crate::math::{clamp_spec, clamp_to, iabs};
use crate::vec3::V3;

verus! {

/// The live body collection: it exclusively owns every body; a body
/// leaves it only by being absorbed in a merge.
pub struct World {
    pub bodies: Vec<Body>,
}

/// Total system mass of a body sequence, in sub-units.
pub open spec fn total_mass(s: Seq<Body>) -> int
    decreases s.len(),
{
    if s.len() == 0 {
        0
    } else {
        total_mass(s.drop_last()) + s.last().mass
    }
}

/// Well-formedness of the live collection: a bounded population of
/// bounded bodies whose total mass the model admits.
pub open spec fn wf_world(s: Seq<Body>) -> bool {
    &&& s.len() <= MAX_BODIES
    &&& (forall|k: int| 0 <= k < s.len() ==> wf_body(#[trigger] s[k]))
    &&& total_mass(s) <= MASS_MAX
}

/// Sequences with pointwise equal masses have equal total mass.
pub proof fn lemma_total_mass_congruent(s1: Seq<Body>, s2: Seq<Body>)
    requires
        s1.len() == s2.len(),
        forall|k: int| 0 <= k < s1.len() ==> (#[trigger] s1[k]).mass == s2[k].mass,
    ensures
        total_mass(s1) == total_mass(s2),
    decreases s1.len(),
{
    if s1.len() > 0 {
        assert(forall|k: int| 0 <= k < s1.len() - 1
            ==> (#[trigger] s1.drop_last()[k]).mass == s2.drop_last()[k].mass);
        lemma_total_mass_congruent(s1.drop_last(), s2.drop_last());
    }
}

/// Appending one body adds its mass.
pub proof fn lemma_total_mass_push(s: Seq<Body>, b: Body)
    ensures
        total_mass(s.push(b)) == total_mass(s) + b.mass,
{
    assert(s.push(b).drop_last() =~= s);
    assert(s.push(b).last() == b);
}

/// One body after one integration step: position advanced by velocity,
/// clamped at the world's edge; nothing else touched.
pub open spec fn integrate_body(b: Body) -> Body {
    Body {
        pos: V3 {
            x: clamp_spec(b.pos.x + b.vel.x, POS_MAX as int) as i64,
            y: clamp_spec(b.pos.y + b.vel.y, POS_MAX as int) as i64,
            z: clamp_spec(b.pos.z + b.vel.z, POS_MAX as int) as i64,
        },
        vel: b.vel,
        mass: b.mass,
        appearance: b.appearance,
    }
}

/// Away from the world's edge the integrator is exact: the position
/// advances by exactly the velocity, every step.
pub proof fn lemma_integrator_exact(b: Body)
    requires
        iabs(b.pos.x + b.vel.x) <= POS_MAX,
        iabs(b.pos.y + b.vel.y) <= POS_MAX,
        iabs(b.pos.z + b.vel.z) <= POS_MAX,
    ensures
        integrate_body(b).pos.x as int == b.pos.x + b.vel.x,
        integrate_body(b).pos.y as int == b.pos.y + b.vel.y,
        integrate_body(b).pos.z as int == b.pos.z + b.vel.z,
        integrate_body(b).vel == b.vel,
        integrate_body(b).mass == b.mass,
{
}

/// The whole collection after one integration step.
pub open spec fn integrate_spec(s: Seq<Body>) -> Seq<Body> {
    Seq::new(s.len(), |k: int| integrate_body(s[k]))
}

/// A body after `k` consecutive integration steps.
pub open spec fn integrate_n(b: Body, k: nat) -> Body
    decreases k,
{
    if k == 0 {
        b
    } else {
        integrate_body(integrate_n(b, (k - 1) as nat))
    }
}

/// Coasting: while its path stays away from the world's edge, a body
/// advances by exactly its velocity on every one of `k` consecutive
/// integration steps — indefinitely — and nothing else about it
/// changes.  (For an isolated body the interleaved gravity passes are
/// no-ops, so this is its whole motion.)
pub proof fn lemma_coasting(b: Body, k: nat)
    requires
        forall|t: int| 0 <= t <= k ==> #[trigger] iabs(b.pos.x + t * b.vel.x) <= POS_MAX,
        forall|t: int| 0 <= t <= k ==> #[trigger] iabs(b.pos.y + t * b.vel.y) <= POS_MAX,
        forall|t: int| 0 <= t <= k ==> #[trigger] iabs(b.pos.z + t * b.vel.z) <= POS_MAX,
    ensures
        integrate_n(b, k).pos.x as int == b.pos.x + k * b.vel.x,
        integrate_n(b, k).pos.y as int == b.pos.y + k * b.vel.y,
        integrate_n(b, k).pos.z as int == b.pos.z + k * b.vel.z,
        integrate_n(b, k).vel == b.vel,
        integrate_n(b, k).mass == b.mass,
        integrate_n(b, k).appearance == b.appearance,
    decreases k,
{
    if k == 0 {
        assert(b.pos.x + 0 * b.vel.x == b.pos.x) by (nonlinear_arith);
        assert(b.pos.y + 0 * b.vel.y == b.pos.y) by (nonlinear_arith);
        assert(b.pos.z + 0 * b.vel.z == b.pos.z) by (nonlinear_arith);
    } else {
        lemma_coasting(b, (k - 1) as nat);
        let prev = integrate_n(b, (k - 1) as nat);
        assert(((k - 1) as nat) * b.vel.x + b.vel.x == k * b.vel.x) by (nonlinear_arith)
            requires k >= 1,
        ;
        assert(((k - 1) as nat) * b.vel.y + b.vel.y == k * b.vel.y) by (nonlinear_arith)
            requires k >= 1,
        ;
        assert(((k - 1) as nat) * b.vel.z + b.vel.z == k * b.vel.z) by (nonlinear_arith)
            requires k >= 1,
        ;
        assert(iabs(b.pos.x + (k as int) * b.vel.x) <= POS_MAX);
        assert(iabs(b.pos.y + (k as int) * b.vel.y) <= POS_MAX);
        assert(iabs(b.pos.z + (k as int) * b.vel.z) <= POS_MAX);
        assert(prev.pos.x + prev.vel.x == b.pos.x + k * b.vel.x);
        assert(prev.pos.y + prev.vel.y == b.pos.y + k * b.vel.y);
        assert(prev.pos.z + prev.vel.z == b.pos.z + k * b.vel.z);
        lemma_integrator_exact(prev);
    }
}

impl World {
    /// An empty collection.
    pub fn new() -> (w: World)
        ensures
            w.bodies@.len() == 0,
            wf_world(w.bodies@),
    {
        World { bodies: Vec::new() }
    }

    /// Number of live bodies.
    pub fn len(&self) -> (n: usize)
        ensures
            n == self.bodies@.len(),
    {
        self.bodies.len()
    }

    /// The body at a live index, by value.
    pub fn body_at(&self, k: usize) -> (b: Body)
        requires
            k < self.bodies@.len(),
        ensures
            b == self.bodies@[k as int],
    {
        self.bodies[k]
    }

    /// The integrator: advance every live body's position by its
    /// current velocity (clamped at the world's edge), exactly once,
    /// touching nothing else.  Pure per body: no pair interaction.
    pub fn movement(&mut self)
        requires
            wf_world(old(self).bodies@),
        ensures
            final(self).bodies@ == integrate_spec(old(self).bodies@),
            wf_world(final(self).bodies@),
            total_mass(final(self).bodies@) == total_mass(old(self).bodies@),
    {
        let ghost s0 = self.bodies@;
        let n = self.bodies.len();
        let mut k: usize = 0;
        while k < n
            invariant
                n == self.bodies@.len(),
                n == s0.len(),
                k <= n,
                forall|t: int| 0 <= t < k ==> self.bodies@[t] == integrate_spec(s0)[t],
                forall|t: int| k <= t < n ==> self.bodies@[t] == s0[t],
                forall|t: int| 0 <= t < n ==> wf_body(#[trigger] s0[t]),
            decreases n - k,
        {
            let b = self.bodies[k];
            let px = clamp_to(b.pos.x as i128 + b.vel.x as i128, POS_MAX);
            let py = clamp_to(b.pos.y as i128 + b.vel.y as i128, POS_MAX);
            let pz = clamp_to(b.pos.z as i128 + b.vel.z as i128, POS_MAX);
            let nb = Body {
                pos: V3 { x: px, y: py, z: pz },
                vel: b.vel,
                mass: b.mass,
                appearance: b.appearance,
            };
            self.bodies[k] = nb;
            proof {
                assert(nb == integrate_body(s0[k as int]));
            }
            k = k + 1;
        }
        proof {
            assert(self.bodies@ =~= integrate_spec(s0));
            lemma_total_mass_congruent(self.bodies@, s0);
            assert forall|t: int| 0 <= t < n
                implies wf_body(#[trigger] self.bodies@[t]) by {
                assert(wf_body(s0[t]));
                assert(self.bodies@[t] == integrate_body(s0[t]));
            }
        }
    }

    /// One simulated step, in the engine's order: integrate positions,
    /// accumulate gravity into velocities, then resolve collisions so
    /// merges see the same step's momentum.  Total system mass is
    /// conserved exactly across the step.
    pub fn step(&mut self)
        requires
            wf_world(old(self).bodies@),
        ensures
            final(self).bodies@ == crate::collide::collisions_spec(
                crate::gravity::gravity_spec(integrate_spec(old(self).bodies@))),
            wf_world(final(self).bodies@),
            total_mass(final(self).bodies@) == total_mass(old(self).bodies@),
    {
        self.movement();
        self.gravity();
        self.collisions();
    }

    /// Decide well-formedness at run time, exactly.
    pub fn is_well_formed(&self) -> (r: bool)
        ensures
            r == wf_world(self.bodies@),
    {
        let n = self.bodies.len();
        if n > MAX_BODIES {
            return false;
        }
        let mut sum: i64 = 0;
        let mut k: usize = 0;
        while k < n
            invariant
                k <= n,
                n == self.bodies@.len(),
                n <= MAX_BODIES,
                forall|t: int| 0 <= t < k ==> wf_body(#[trigger] self.bodies@[t]),
                sum as int == total_mass(self.bodies@.take(k as int)),
                0 <= sum <= k * MASS_MAX,
            decreases n - k,
        {
            let b = self.bodies[k];
            if !body_in_bounds(&b) {
                return false;
            }
            proof {
                lemma_take_one_more(self.bodies@, k as int);
            }
            sum = sum + b.mass;
            k = k + 1;
        }
        proof {
            assert(self.bodies@.take(n as int) =~= self.bodies@);
        }
        sum <= MASS_MAX
    }

    /// The number of unordered pairs of distinct live bodies that one
    /// gravity or collision pass visits: exactly `n*(n-1)/2`, never a
    /// pair twice, never a body with itself.
    pub fn pair_count(&self) -> (c: usize)
        requires
            self.bodies@.len() <= MAX_BODIES,
        ensures
            c == crate::pairs::all_pairs(self.bodies@.len() as int).len(),
            2 * c == self.bodies@.len() * (self.bodies@.len() - 1),
    {
        let n = self.bodies.len();
        proof {
            crate::pairs::lemma_all_pairs_count(n as int);
        }
        if n == 0 {
            return 0;
        }
        proof {
            assert(n * (n - 1) <= 100_000_000) by (nonlinear_arith)
                requires 1 <= n <= 10_000,
            ;
        }
        let c = n * (n - 1) / 2;
        proof {
            assert(c == crate::pairs::all_pairs(n as int).len()) by (nonlinear_arith)
                requires
                    2 * crate::pairs::all_pairs(n as int).len() == n * (n - 1),
                    c == (n * (n - 1)) as int / 2,
                    n >= 1,
            ;
        }
        c
    }

    /// Total system mass, exactly.
    pub fn mass_total(&self) -> (m: i64)
        requires
            wf_world(self.bodies@),
        ensures
            m as int == total_mass(self.bodies@),
    {
        let n = self.bodies.len();
        let mut sum: i64 = 0;
        let mut k: usize = 0;
        while k < n
            invariant
                n == self.bodies@.len(),
                k <= n,
                sum as int == total_mass(self.bodies@.take(k as int)),
                wf_world(self.bodies@),
                0 <= sum,
            decreases n - k,
        {
            proof {
                lemma_take_one_more(self.bodies@, k as int);
                lemma_mass_split(self.bodies@, k as int + 1);
                lemma_from_nonneg(self.bodies@, k as int + 1);
                assert(wf_body(self.bodies@[k as int]));
            }
            sum = sum + self.bodies[k].mass;
            k = k + 1;
        }
        proof {
            assert(self.bodies@.take(n as int) =~= self.bodies@);
        }
        sum
    }
}

/// Decide one body's bounds at run time, exactly.
pub fn body_in_bounds(b: &Body) -> (r: bool)
    ensures
        r == wf_body(*b),
{
    1 <= b.mass && b.mass <= MASS_MAX
        && -POS_MAX <= b.pos.x && b.pos.x <= POS_MAX
        && -POS_MAX <= b.pos.y && b.pos.y <= POS_MAX
        && -POS_MAX <= b.pos.z && b.pos.z <= POS_MAX
        && -VEL_MAX <= b.vel.x && b.vel.x <= VEL_MAX
        && -VEL_MAX <= b.vel.y && b.vel.y <= VEL_MAX
        && -VEL_MAX <= b.vel.z && b.vel.z <= VEL_MAX
}

/// Total mass of the suffix starting at `k`.
pub open spec fn total_mass_from(s: Seq<Body>, k: int) -> int
    decreases s.len() - k,
{
    if k < 0 || k >= s.len() {
        0
    } else {
        s[k].mass + total_mass_from(s, k + 1)
    }
}

/// Taking one more body adds its mass to the prefix total.
proof fn lemma_take_one_more(s: Seq<Body>, k: int)
    requires
        0 <= k < s.len(),
    ensures
        total_mass(s.take(k + 1)) == total_mass(s.take(k)) + s[k].mass,
{
    assert(s.take(k + 1).drop_last() =~= s.take(k));
    assert(s.take(k + 1).last() == s[k]);
}

/// The whole total splits into a prefix total and a suffix total.
proof fn lemma_mass_split(s: Seq<Body>, k: int)
    requires
        0 <= k <= s.len(),
    ensures
        total_mass(s) == total_mass(s.take(k)) + total_mass_from(s, k),
    decreases s.len() - k,
{
    if k == s.len() {
        assert(s.take(k) =~= s);
    } else {
        lemma_mass_split(s, k + 1);
        lemma_take_one_more(s, k);
    }
}

/// A suffix of well-formed bodies has nonnegative mass.
proof fn lemma_from_nonneg(s: Seq<Body>, k: int)
    requires
        forall|t: int| 0 <= t < s.len() ==> wf_body(#[trigger] s[t]),
    ensures
        total_mass_from(s, k) >= 0,
    decreases s.len() - k,
{
    if 0 <= k && k < s.len() {
        lemma_from_nonneg(s, k + 1);
    }
}

} // verus!
