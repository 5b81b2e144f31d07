//! The collision resolver: one pass over every unordered pair of
//! distinct live bodies; overlapping pairs merge into the lower index,
//! conserving mass exactly and momentum up to truncation, and the
//! absorbed body is marked dead at once (so it is never read again in
//! the same pass) and purged after the pass.

use vstd::prelude::*;
use crate::body::{Body, dist2_of, radius_spec, wf_body, MASS_MAX, POS_MAX, VEL_MAX};
use crate::math::{div_trunc, div_trunc_i128, iabs, lemma_div_trunc_bound,
    lemma_div_trunc_scale, sq};
use crate::pairs::{all_pairs, row, rows_upto};
use crate::vec3::V3;
use crate::world::{total_mass, wf_world, World};

verus! {

/// The strict overlap test: squared distance strictly below the
/// squared sum of the radii.  Comparing squares is exact; a pair whose
/// distance equals the radius sum does NOT overlap.
pub open spec fn overlap_spec(a: Body, b: Body) -> bool {
    dist2_of(a, b) < sq(radius_spec(a.mass as int) + radius_spec(b.mass as int))
}

/// Mass-weighted average of one component, truncated toward zero.
pub open spec fn wavg(p: int, m: int, q: int, mm: int) -> int {
    div_trunc(p * m + q * mm, m + mm)
}

/// The body that a merge leaves behind: total mass, mass-weighted
/// centroid, momentum-conserving velocity, the absorbing body's tag.
pub open spec fn merge_spec(a: Body, b: Body) -> Body {
    Body {
        pos: V3 {
            x: wavg(a.pos.x as int, a.mass as int, b.pos.x as int, b.mass as int) as i64,
            y: wavg(a.pos.y as int, a.mass as int, b.pos.y as int, b.mass as int) as i64,
            z: wavg(a.pos.z as int, a.mass as int, b.pos.z as int, b.mass as int) as i64,
        },
        vel: V3 {
            x: wavg(a.vel.x as int, a.mass as int, b.vel.x as int, b.mass as int) as i64,
            y: wavg(a.vel.y as int, a.mass as int, b.vel.y as int, b.mass as int) as i64,
            z: wavg(a.vel.z as int, a.mass as int, b.vel.z as int, b.mass as int) as i64,
        },
        mass: (a.mass + b.mass) as i64,
        appearance: a.appearance,
    }
}

/// One pair of the collision pass: if both are still live and overlap,
/// the lower index absorbs the higher, which is marked dead; dead
/// bodies take part in nothing further.
pub open spec fn coll_step(s: Seq<Body>, al: Seq<bool>, i: int, j: int)
    -> (Seq<Body>, Seq<bool>) {
    if al[i] && al[j] && overlap_spec(s[i], s[j]) {
        (s.update(i, merge_spec(s[i], s[j])), al.update(j, false))
    } else {
        (s, al)
    }
}

/// Folding the pair step over a pair enumeration, in order; a body
/// that has already absorbed one partner carries its updated state
/// into a later merge in the same pass.
pub open spec fn coll_fold(s: Seq<Body>, al: Seq<bool>, ps: Seq<(int, int)>)
    -> (Seq<Body>, Seq<bool>)
    decreases ps.len(),
{
    if ps.len() == 0 {
        (s, al)
    } else {
        let prev = coll_fold(s, al, ps.drop_last());
        coll_step(prev.0, prev.1, ps.last().0, ps.last().1)
    }
}

/// The all-live mask.
pub open spec fn full_mask(n: int) -> Seq<bool> {
    Seq::new(if n >= 0 { n as nat } else { 0 }, |k: int| true)
}

/// The live bodies among the first `k`, in order.
pub open spec fn live_filter(s: Seq<Body>, al: Seq<bool>, k: int) -> Seq<Body>
    decreases k,
{
    if k <= 0 {
        Seq::empty()
    } else {
        live_filter(s, al, k - 1) + if al[k - 1] {
            seq![s[k - 1]]
        } else {
            Seq::empty()
        }
    }
}

/// Total mass of the live bodies among the first `k`.
pub open spec fn live_mass(s: Seq<Body>, al: Seq<bool>, k: int) -> int
    decreases k,
{
    if k <= 0 {
        0
    } else {
        live_mass(s, al, k - 1) + if al[k - 1] {
            s[k - 1].mass as int
        } else {
            0
        }
    }
}

/// The whole collision pass: fold the pair step over every unordered
/// pair, then purge the dead.
pub open spec fn collisions_spec(s: Seq<Body>) -> Seq<Body> {
    let f = coll_fold(s, full_mask(s.len() as int), all_pairs(s.len() as int));
    live_filter(f.0, f.1, s.len() as int)
}

proof fn lemma_coll_fold_push(s: Seq<Body>, al: Seq<bool>, ps: Seq<(int, int)>, i: int, j: int)
    ensures
        coll_fold(s, al, ps.push((i, j)))
            == coll_step(coll_fold(s, al, ps).0, coll_fold(s, al, ps).1, i, j),
{
    assert(ps.push((i, j)).drop_last() =~= ps);
    assert(ps.push((i, j)).last() == (i, j));
}

/// Purging totals exactly the live mass.
proof fn lemma_live_filter_mass(s: Seq<Body>, al: Seq<bool>, k: int)
    ensures
        total_mass(live_filter(s, al, k)) == live_mass(s, al, k),
    decreases k,
{
    if k > 0 {
        lemma_live_filter_mass(s, al, k - 1);
        if al[k - 1] {
            let f = live_filter(s, al, k - 1) + seq![s[k - 1]];
            assert(f.drop_last() =~= live_filter(s, al, k - 1));
            assert(f.last() == s[k - 1]);
        } else {
            assert(live_filter(s, al, k - 1) + Seq::<Body>::empty()
                =~= live_filter(s, al, k - 1));
        }
    }
}

/// With every body live, the live mass is the total mass.
proof fn lemma_live_mass_all(s: Seq<Body>, al: Seq<bool>, k: int)
    requires
        0 <= k <= s.len(),
        forall|t: int| 0 <= t < k ==> al[t] == true,
    ensures
        live_mass(s, al, k) == total_mass(s.take(k)),
    decreases k,
{
    if k > 0 {
        lemma_live_mass_all(s, al, k - 1);
        assert(s.take(k).drop_last() =~= s.take(k - 1));
        assert(s.take(k).last() == s[k - 1]);
    }
}

proof fn lemma_live_mass_nonneg(s: Seq<Body>, al: Seq<bool>, k: int)
    requires
        forall|t: int| 0 <= t < s.len() ==> (#[trigger] s[t]).mass >= 0,
        k <= s.len(),
    ensures
        live_mass(s, al, k) >= 0,
    decreases k,
{
    if k > 0 {
        lemma_live_mass_nonneg(s, al, k - 1);
    }
}

proof fn lemma_live_mass_single(s: Seq<Body>, al: Seq<bool>, k: int, i: int)
    requires
        forall|t: int| 0 <= t < s.len() ==> (#[trigger] s[t]).mass >= 0,
        0 <= i < k <= s.len(),
        al[i],
    ensures
        s[i].mass <= live_mass(s, al, k),
    decreases k,
{
    if i == k - 1 {
        lemma_live_mass_nonneg(s, al, k - 1);
    } else {
        lemma_live_mass_single(s, al, k - 1, i);
    }
}

/// Two distinct live bodies weigh no more than all the live bodies.
proof fn lemma_live_mass_pair(s: Seq<Body>, al: Seq<bool>, k: int, i: int, j: int)
    requires
        forall|t: int| 0 <= t < s.len() ==> (#[trigger] s[t]).mass >= 0,
        0 <= i < k <= s.len(),
        0 <= j < k,
        i != j,
        al[i],
        al[j],
    ensures
        s[i].mass + s[j].mass <= live_mass(s, al, k),
    decreases k,
{
    if i == k - 1 {
        lemma_live_mass_single(s, al, k - 1, j);
    } else if j == k - 1 {
        lemma_live_mass_single(s, al, k - 1, i);
    } else {
        lemma_live_mass_pair(s, al, k - 1, i, j);
    }
}

/// Replacing one live body moves the live mass by the difference.
proof fn lemma_live_mass_update(s: Seq<Body>, al: Seq<bool>, k: int, i: int, b: Body)
    requires
        0 <= i < s.len(),
        k <= s.len(),
        al[i],
    ensures
        i < k ==> live_mass(s.update(i, b), al, k)
            == live_mass(s, al, k) - s[i].mass + b.mass,
        i >= k ==> live_mass(s.update(i, b), al, k) == live_mass(s, al, k),
    decreases k,
{
    if k > 0 {
        lemma_live_mass_update(s, al, k - 1, i, b);
    }
}

/// Marking one live body dead removes exactly its mass.
proof fn lemma_live_mass_kill(s: Seq<Body>, al: Seq<bool>, k: int, j: int)
    requires
        0 <= j < al.len(),
        k <= s.len(),
        k <= al.len(),
        al[j],
    ensures
        j < k ==> live_mass(s, al.update(j, false), k)
            == live_mass(s, al, k) - s[j].mass,
        j >= k ==> live_mass(s, al.update(j, false), k) == live_mass(s, al, k),
    decreases k,
{
    if k > 0 {
        lemma_live_mass_kill(s, al, k - 1, j);
    }
}

/// Mass conservation at the single merge: the merged body weighs
/// exactly the sum of the two it replaces.  (Across whole passes and
/// whole steps, `collisions` and `step` carry the same conservation in
/// their `ensures`.)
pub proof fn lemma_merge_conserves_mass(a: Body, b: Body)
    requires
        1 <= a.mass,
        1 <= b.mass,
        a.mass + b.mass <= MASS_MAX,
    ensures
        merge_spec(a, b).mass == a.mass + b.mass,
{
}

/// Merge centroid: merging two bodies of equal mass puts the result at
/// the midpoint of the two positions (componentwise, truncated toward
/// zero; exact whenever the component sum is even).
pub proof fn lemma_merge_centroid_equal_mass(a: Body, b: Body)
    requires
        wf_body(a),
        wf_body(b),
        a.mass == b.mass,
    ensures
        merge_spec(a, b).pos.x as int == div_trunc(a.pos.x + b.pos.x, 2),
        merge_spec(a, b).pos.y as int == div_trunc(a.pos.y + b.pos.y, 2),
        merge_spec(a, b).pos.z as int == div_trunc(a.pos.z + b.pos.z, 2),
{
    lemma_merge_axis_equal_mass(a.pos.x as int, b.pos.x as int, a.mass as int);
    lemma_merge_axis_equal_mass(a.pos.y as int, b.pos.y as int, a.mass as int);
    lemma_merge_axis_equal_mass(a.pos.z as int, b.pos.z as int, a.mass as int);
    lemma_div_trunc_bound(a.pos.x + b.pos.x, 2, POS_MAX as int);
    lemma_div_trunc_bound(a.pos.y + b.pos.y, 2, POS_MAX as int);
    lemma_div_trunc_bound(a.pos.z + b.pos.z, 2, POS_MAX as int);
}

proof fn lemma_merge_axis_equal_mass(p: int, q: int, m: int)
    requires
        1 <= m,
    ensures
        wavg(p, m, q, m) == div_trunc(p + q, 2),
{
    assert(p * m + q * m == m * (p + q)) by (nonlinear_arith);
    assert(m + m == m * 2) by (nonlinear_arith);
    lemma_div_trunc_scale(m, p + q, 2);
}

/// Collision threshold: the overlap test is strict, so a pair whose
/// squared distance equals the squared radius sum does not merge,
/// while any smaller squared distance does.
pub proof fn lemma_collision_threshold(a: Body, b: Body)
    ensures
        dist2_of(a, b) == sq(radius_spec(a.mass as int) + radius_spec(b.mass as int))
            ==> !overlap_spec(a, b),
        overlap_spec(a, b)
            <==> dist2_of(a, b)
                < sq(radius_spec(a.mass as int) + radius_spec(b.mass as int)),
{
}

/// The strict overlap test, exactly.
pub fn overlap(a: Body, b: Body) -> (r: bool)
    requires
        wf_body(a),
        wf_body(b),
    ensures
        r == overlap_spec(a, b),
{
    let dx = b.pos.x - a.pos.x;
    let dy = b.pos.y - a.pos.y;
    let dz = b.pos.z - a.pos.z;
    proof {
        assert((dx as int) * (dx as int) >= 0 && (dx as int) * (dx as int)
            <= 40_000_000_000_000_000_000_000) by (nonlinear_arith)
            requires iabs(dx as int) <= 200_000_000_000,
        ;
        assert((dy as int) * (dy as int) >= 0 && (dy as int) * (dy as int)
            <= 40_000_000_000_000_000_000_000) by (nonlinear_arith)
            requires iabs(dy as int) <= 200_000_000_000,
        ;
        assert((dz as int) * (dz as int) >= 0 && (dz as int) * (dz as int)
            <= 40_000_000_000_000_000_000_000) by (nonlinear_arith)
            requires iabs(dz as int) <= 200_000_000_000,
        ;
    }
    let d2: i128 = (dx as i128) * (dx as i128) + (dy as i128) * (dy as i128)
        + (dz as i128) * (dz as i128);
    let ra = a.radius();
    let rb = b.radius();
    let rsum: i128 = ra as i128 + rb as i128;
    proof {
        assert(rsum * rsum <= 40_000_000_000_000_000) by (nonlinear_arith)
            requires 0 <= rsum <= 200_000_000,
        ;
        assert(rsum * rsum == sq(radius_spec(a.mass as int) + radius_spec(b.mass as int)));
    }
    d2 < rsum * rsum
}

/// Merge the body at `j` into the body at `i`, in place.
fn merge_bodies(bodies: &mut Vec<Body>, i: usize, j: usize)
    requires
        i < old(bodies)@.len(),
        j < old(bodies)@.len(),
        i != j,
        wf_body(old(bodies)@[i as int]),
        wf_body(old(bodies)@[j as int]),
        old(bodies)@[i as int].mass + old(bodies)@[j as int].mass <= MASS_MAX,
    ensures
        final(bodies)@ == old(bodies)@.update(i as int,
            merge_spec(old(bodies)@[i as int], old(bodies)@[j as int])),
        wf_body(final(bodies)@[i as int]),
        final(bodies)@.len() == old(bodies)@.len(),
{
    let a = bodies[i];
    let b = bodies[j];
    let tm: i64 = a.mass + b.mass;
    let px = wavg_exec(a.pos.x, a.mass, b.pos.x, b.mass, POS_MAX);
    let py = wavg_exec(a.pos.y, a.mass, b.pos.y, b.mass, POS_MAX);
    let pz = wavg_exec(a.pos.z, a.mass, b.pos.z, b.mass, POS_MAX);
    let vx = wavg_exec(a.vel.x, a.mass, b.vel.x, b.mass, VEL_MAX);
    let vy = wavg_exec(a.vel.y, a.mass, b.vel.y, b.mass, VEL_MAX);
    let vz = wavg_exec(a.vel.z, a.mass, b.vel.z, b.mass, VEL_MAX);
    let nb = Body {
        pos: V3 { x: px, y: py, z: pz },
        vel: V3 { x: vx, y: vy, z: vz },
        mass: tm,
        appearance: a.appearance,
    };
    bodies[i] = nb;
    proof {
        assert(nb == merge_spec(a, b));
    }
}

/// One mass-weighted component, in place of the real-valued average.
fn wavg_exec(p: i64, m: i64, q: i64, mm: i64, bound: i64) -> (r: i64)
    requires
        1 <= m,
        1 <= mm,
        m + mm <= MASS_MAX,
        1 <= bound <= 1_000_000_000_000,
        iabs(p as int) <= bound,
        iabs(q as int) <= bound,
    ensures
        r as int == wavg(p as int, m as int, q as int, mm as int),
        iabs(r as int) <= bound,
{
    proof {
        assert((p as int) * (m as int) <= bound * (m as int)
            && (p as int) * (m as int) >= -(bound * (m as int))
            && bound * (m as int) <= 1_000_000_000_000_000_000_000_000)
            by (nonlinear_arith)
            requires
                iabs(p as int) <= bound,
                1 <= m as int <= 1_000_000_000_000,
                1 <= bound <= 1_000_000_000_000,
        ;
        assert((q as int) * (mm as int) <= bound * (mm as int)
            && (q as int) * (mm as int) >= -(bound * (mm as int))
            && bound * (mm as int) <= 1_000_000_000_000_000_000_000_000)
            by (nonlinear_arith)
            requires
                iabs(q as int) <= bound,
                1 <= mm as int <= 1_000_000_000_000,
                1 <= bound <= 1_000_000_000_000,
        ;
    }
    let num: i128 = (p as i128) * (m as i128) + (q as i128) * (mm as i128);
    let tm: i128 = (m as i128) + (mm as i128);
    let r128 = div_trunc_i128(num, tm);
    proof {
        assert(iabs(num as int) <= bound * (tm as int)) by (nonlinear_arith)
            requires
                num as int == (p as int) * (m as int) + (q as int) * (mm as int),
                tm as int == m as int + mm as int,
                (p as int) * (m as int) <= bound * (m as int),
                (p as int) * (m as int) >= -(bound * (m as int)),
                (q as int) * (mm as int) <= bound * (mm as int),
                (q as int) * (mm as int) >= -(bound * (mm as int)),
        ;
        lemma_div_trunc_bound(num as int, tm as int, bound as int);
    }
    r128 as i64
}

impl World {
    /// The collision resolver: visit every unordered pair of distinct
    /// live bodies exactly once; merge overlapping pairs (the lower
    /// index absorbs, conserving mass exactly and momentum up to
    /// truncation), mark the absorbed side dead so it is never read
    /// again in the pass, and purge the dead afterwards.  Total system
    /// mass is conserved exactly.
    pub fn collisions(&mut self)
        requires
            wf_world(old(self).bodies@),
        ensures
            final(self).bodies@ == collisions_spec(old(self).bodies@),
            wf_world(final(self).bodies@),
            total_mass(final(self).bodies@) == total_mass(old(self).bodies@),
            final(self).bodies@.len() <= old(self).bodies@.len(),
    {
        let ghost s0 = self.bodies@;
        let n = self.bodies.len();
        let ghost ni = n as int;
        let ghost m0 = full_mask(ni);
        let mut alive: Vec<bool> = Vec::new();
        let mut t: usize = 0;
        while t < n
            invariant
                t <= n,
                alive@.len() == t,
                forall|k: int| 0 <= k < t ==> alive@[k] == true,
            decreases n - t,
        {
            alive.push(true);
            t = t + 1;
        }
        proof {
            assert(alive@ =~= m0);
        }
        let mut i: usize = 0;
        proof {
            assert(rows_upto(ni, 0) =~= Seq::<(int, int)>::empty());
            lemma_live_mass_all(s0, m0, ni);
            assert(s0.take(ni) =~= s0);
        }
        while i < n
            invariant
                i <= n,
                n == self.bodies@.len(),
                n == s0.len(),
                ni == n as int,
                alive@.len() == n,
                m0 == full_mask(ni),
                (self.bodies@, alive@) == coll_fold(s0, m0, rows_upto(ni, i as int)),
                forall|k: int| 0 <= k < ni ==> wf_body(#[trigger] self.bodies@[k]),
                live_mass(self.bodies@, alive@, ni) == total_mass(s0),
                total_mass(s0) <= MASS_MAX,
            decreases n - i,
        {
            let mut j: usize = i + 1;
            proof {
                assert(row(i as int, ni).take(0) =~= Seq::<(int, int)>::empty());
                assert(rows_upto(ni, i as int) + Seq::<(int, int)>::empty()
                    =~= rows_upto(ni, i as int));
            }
            while j < n
                invariant
                    i < n,
                    i + 1 <= j <= n,
                    n == self.bodies@.len(),
                    n == s0.len(),
                    ni == n as int,
                    alive@.len() == n,
                    m0 == full_mask(ni),
                    (self.bodies@, alive@) == coll_fold(s0, m0,
                        rows_upto(ni, i as int) + row(i as int, ni).take(j - i - 1)),
                    forall|k: int| 0 <= k < ni ==> wf_body(#[trigger] self.bodies@[k]),
                    live_mass(self.bodies@, alive@, ni) == total_mass(s0),
                    total_mass(s0) <= MASS_MAX,
                decreases n - j,
            {
                let ghost pre = self.bodies@;
                let ghost preal = alive@;
                let ghost taken = rows_upto(ni, i as int)
                    + row(i as int, ni).take(j - i - 1);
                let ai = alive[i];
                let aj = alive[j];
                if ai && aj {
                    let bi = self.bodies[i];
                    let bj = self.bodies[j];
                    if overlap(bi, bj) {
                        proof {
                            assert(forall|u: int| 0 <= u < pre.len()
                                ==> (#[trigger] pre[u]).mass >= 0);
                            lemma_live_mass_pair(pre, preal, ni, i as int, j as int);
                        }
                        merge_bodies(&mut self.bodies, i, j);
                        alive[j] = false;
                        proof {
                            lemma_live_mass_update(pre, preal, ni, i as int,
                                merge_spec(pre[i as int], pre[j as int]));
                            lemma_live_mass_kill(self.bodies@, preal, ni, j as int);
                            assert(self.bodies@[j as int] == pre[j as int]);
                        }
                    }
                }
                proof {
                    assert(row(i as int, ni)[j - i - 1] == (i as int, j as int));
                    assert(row(i as int, ni).take(j as int - i - 1 + 1)
                        =~= row(i as int, ni).take(j - i - 1).push((i as int, j as int)));
                    assert(rows_upto(ni, i as int)
                        + row(i as int, ni).take(j - i - 1).push((i as int, j as int))
                        =~= taken.push((i as int, j as int)));
                    lemma_coll_fold_push(s0, m0, taken, i as int, j as int);
                    assert((self.bodies@, alive@) == coll_step(pre, preal, i as int, j as int));
                }
                j = j + 1;
            }
            proof {
                assert(row(i as int, ni).take(n - i - 1) =~= row(i as int, ni));
                assert(rows_upto(ni, i as int + 1)
                    == rows_upto(ni, i as int) + row(i as int, ni));
            }
            i = i + 1;
        }
        let ghost fb = self.bodies@;
        let ghost fa = alive@;
        let mut out: Vec<Body> = Vec::new();
        let mut k: usize = 0;
        while k < n
            invariant
                k <= n,
                n == self.bodies@.len(),
                alive@.len() == n,
                self.bodies@ == fb,
                alive@ == fa,
                out@ == live_filter(fb, fa, k as int),
                out@.len() <= k,
                forall|u: int| 0 <= u < out@.len() ==> wf_body(#[trigger] out@[u]),
                forall|u: int| 0 <= u < n ==> wf_body(#[trigger] fb[u]),
            decreases n - k,
        {
            if alive[k] {
                out.push(self.bodies[k]);
                proof {
                    assert(out@ =~= live_filter(fb, fa, k as int) + seq![fb[k as int]]);
                }
            } else {
                proof {
                    assert(live_filter(fb, fa, k as int + 1)
                        =~= live_filter(fb, fa, k as int) + Seq::<Body>::empty());
                    assert(live_filter(fb, fa, k as int) + Seq::<Body>::empty()
                        =~= live_filter(fb, fa, k as int));
                }
            }
            k = k + 1;
        }
        self.bodies = out;
        proof {
            assert(self.bodies@ == live_filter(fb, fa, ni));
            assert((fb, fa) == coll_fold(s0, m0, rows_upto(ni, ni)));
            lemma_live_filter_mass(fb, fa, ni);
        }
    }
}

} // verus!
