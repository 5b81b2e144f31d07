//! The gravity accumulator: one pass over every unordered pair of
//! distinct live bodies, applying symmetric Newtonian attraction to
//! both velocities and touching nothing else.

use vstd::prelude::*;
use crate::body::{Body, dist2_of, wf_body, G_DEN, G_NUM, MASS_MAX, POS_MAX, SCALE, VEL_MAX};
use crate::math::{clamp_spec, clamp_to, cube, iabs, isqrt, sq, sqrt_floor,
    lemma_sqrt_floor_exists};
use crate::pairs::{all_pairs, row, rows_upto};
use crate::vec3::V3;
use crate::world::{total_mass, lemma_total_mass_congruent};

verus! {

/// The integer denominator of the gravity update: `G_DEN` times the
/// cube of the floored distance.
pub open spec fn grav_den(d2: int) -> int {
    (G_DEN as int) * cube(sqrt_floor(d2))
}

/// Velocity change, per axis, that a body receives from a partner of
/// mass `m_other` across position difference `diff` (partner minus
/// receiver) and squared distance `d2`: the fixed-point rendering of
/// `G * m_other * diff / dist^3`, truncated toward zero.
pub open spec fn dv_axis(m_other: int, diff: int, d2: int) -> int {
    let q = ((G_NUM as int) * (SCALE as int) * (SCALE as int) * m_other * iabs(diff))
        / grav_den(d2);
    if diff >= 0 {
        q
    } else {
        -q
    }
}

/// Clamp a velocity component at the model's edge.
pub open spec fn clamp_vel(x: int) -> i64 {
    clamp_spec(x, VEL_MAX as int) as i64
}

/// One pair of the gravity pass: both velocities updated in one visit,
/// with opposite signs; coincident bodies are left unchanged (the
/// division by distance would be degenerate, so the kernel guards it
/// as a documented no-op).
pub open spec fn grav_pair_spec(s: Seq<Body>, i: int, j: int) -> Seq<Body> {
    let bi = s[i];
    let bj = s[j];
    let d2 = dist2_of(bi, bj);
    if d2 == 0 {
        s
    } else {
        let dx = bj.pos.x - bi.pos.x;
        let dy = bj.pos.y - bi.pos.y;
        let dz = bj.pos.z - bi.pos.z;
        let nvi = V3 {
            x: clamp_vel(bi.vel.x + dv_axis(bj.mass as int, dx, d2)),
            y: clamp_vel(bi.vel.y + dv_axis(bj.mass as int, dy, d2)),
            z: clamp_vel(bi.vel.z + dv_axis(bj.mass as int, dz, d2)),
        };
        let nvj = V3 {
            x: clamp_vel(bj.vel.x - dv_axis(bi.mass as int, dx, d2)),
            y: clamp_vel(bj.vel.y - dv_axis(bi.mass as int, dy, d2)),
            z: clamp_vel(bj.vel.z - dv_axis(bi.mass as int, dz, d2)),
        };
        s.update(i, Body { pos: bi.pos, vel: nvi, mass: bi.mass, appearance: bi.appearance })
            .update(j, Body { pos: bj.pos, vel: nvj, mass: bj.mass, appearance: bj.appearance })
    }
}

/// Folding the pair update over a pair enumeration, in order.
pub open spec fn grav_fold(s: Seq<Body>, ps: Seq<(int, int)>) -> Seq<Body>
    decreases ps.len(),
{
    if ps.len() == 0 {
        s
    } else {
        grav_pair_spec(grav_fold(s, ps.drop_last()), ps.last().0, ps.last().1)
    }
}

/// The whole gravity pass: the fold over every unordered pair of
/// distinct indices, each visited exactly once.
pub open spec fn gravity_spec(s: Seq<Body>) -> Seq<Body> {
    grav_fold(s, all_pairs(s.len() as int))
}

proof fn lemma_grav_fold_push(s: Seq<Body>, ps: Seq<(int, int)>, i: int, j: int)
    ensures
        grav_fold(s, ps.push((i, j))) == grav_pair_spec(grav_fold(s, ps), i, j),
{
    assert(ps.push((i, j)).drop_last() =~= ps);
    assert(ps.push((i, j)).last() == (i, j));
}

/// A gravity pass over a single isolated body is a no-op: there are no
/// pairs to visit.
pub proof fn lemma_isolated_body_gravity_noop(s: Seq<Body>)
    requires
        s.len() == 1,
    ensures
        gravity_spec(s) == s,
{
    assert(rows_upto(1, 0) =~= Seq::<(int, int)>::empty());
    assert(rows_upto(1, 1) == rows_upto(1, 0) + row(0, 1));
    assert(row(0, 1).len() == 0);
    assert(all_pairs(1) =~= Seq::<(int, int)>::empty());
}

/// The velocity change of one body from one partner, per axis, as an
/// `i128`, exact against `dv_axis`.
fn dv_exec(m_other: i64, diff: i64, den: u128, Ghost(d2): Ghost<int>) -> (dv: i128)
    requires
        1 <= m_other <= MASS_MAX,
        iabs(diff as int) <= 2 * POS_MAX,
        den as int == grav_den(d2),
        1000 <= den,
    ensures
        dv as int == dv_axis(m_other as int, diff as int, d2),
        iabs(dv as int) <= 1_400_000_000_000_000_000_000_000_000_000_000_000,
{
    let adx: u128 = if diff >= 0 {
        diff as u128
    } else {
        (-diff) as u128
    };
    let base: u128 = 7_000_000_000_000;
    proof {
        assert(base as int == (G_NUM as int) * (SCALE as int) * (SCALE as int));
    }
    let num0: u128 = base * (m_other as u128);
    proof {
        assert(num0 * adx <= 1_400_000_000_000_000_000_000_000_000_000_000_000)
            by (nonlinear_arith)
            requires
                num0 <= 7_000_000_000_000_000_000_000_000,
                adx <= 200_000_000_000,
        ;
    }
    let num: u128 = num0 * adx;
    proof {
        vstd::arithmetic::div_mod::lemma_div_nonincreasing(num as int, den as int);
        vstd::arithmetic::div_mod::lemma_div_pos_is_pos(num as int, den as int);
        assert((G_NUM as int) * (SCALE as int) * (SCALE as int) * (m_other as int)
            * iabs(diff as int) == num as int) by (nonlinear_arith)
            requires
                num as int == num0 as int * adx as int,
                num0 as int == 7_000_000_000_000 * (m_other as int),
                adx as int == iabs(diff as int),
        ;
    }
    let q: u128 = num / den;
    let dvm: i128 = q as i128;
    if diff >= 0 {
        dvm
    } else {
        -dvm
    }
}

/// Newton's third law at the model's precision: across one pair
/// update, each axis's pair momentum change is the difference of two
/// truncations of the same rational, hence strictly smaller in
/// magnitude than the pair's total mass in sub-units.
pub proof fn lemma_pair_momentum_bound(m_a: int, m_b: int, diff: int, d2: int)
    requires
        1 <= m_a,
        1 <= m_b,
        1 <= d2,
    ensures
        iabs(m_a * dv_axis(m_b, diff, d2) - m_b * dv_axis(m_a, diff, d2)) < m_a + m_b,
        ((G_NUM as int) * (SCALE as int) * (SCALE as int) * m_a * iabs(diff))
            % grav_den(d2) == 0
            && ((G_NUM as int) * (SCALE as int) * (SCALE as int) * m_b * iabs(diff))
                % grav_den(d2) == 0
            ==> m_a * dv_axis(m_b, diff, d2) == m_b * dv_axis(m_a, diff, d2),
{
    lemma_sqrt_floor_exists(d2);
    let r = sqrt_floor(d2);
    assert(sq(r) <= d2 < sq(r + 1));
    if r == 0 {
        assert((r + 1) * (r + 1) == 1) by (nonlinear_arith)
            requires r == 0,
        ;
        assert(false);
    }
    let den = grav_den(d2);
    assert(cube(r) >= 1) by (nonlinear_arith)
        requires r >= 1,
    ;
    assert(den >= 1000);
    let c = (G_NUM as int) * (SCALE as int) * (SCALE as int);
    let num_a = c * m_a * iabs(diff);
    let num_b = c * m_b * iabs(diff);
    assert(num_a >= 0) by (nonlinear_arith)
        requires m_a >= 1, iabs(diff) >= 0, c == 7_000_000_000_000,
            num_a == c * m_a * iabs(diff),
    ;
    assert(num_b >= 0) by (nonlinear_arith)
        requires m_b >= 1, iabs(diff) >= 0, c == 7_000_000_000_000,
            num_b == c * m_b * iabs(diff),
    ;
    let q_a = num_a / den;
    let q_b = num_b / den;
    let r_a = num_a % den;
    let r_b = num_b % den;
    vstd::arithmetic::div_mod::lemma_fundamental_div_mod(num_a, den);
    vstd::arithmetic::div_mod::lemma_fundamental_div_mod(num_b, den);
    vstd::arithmetic::div_mod::lemma_mod_division_less_than_divisor(num_a, den);
    vstd::arithmetic::div_mod::lemma_mod_division_less_than_divisor(num_b, den);
    assert(m_a * num_b == m_b * num_a) by (nonlinear_arith)
        requires
            num_a == c * m_a * iabs(diff),
            num_b == c * m_b * iabs(diff),
    ;
    let x = m_a * q_b - m_b * q_a;
    assert(den * x == m_b * r_a - m_a * r_b) by (nonlinear_arith)
        requires
            num_a == den * q_a + r_a,
            num_b == den * q_b + r_b,
            m_a * num_b == m_b * num_a,
            x == m_a * q_b - m_b * q_a,
    ;
    assert(m_b * r_a < m_b * den) by (nonlinear_arith)
        requires r_a < den, m_b >= 1,
    ;
    assert(m_a * r_b >= 0) by (nonlinear_arith)
        requires r_b >= 0, m_a >= 1,
    ;
    assert(m_a * r_b < m_a * den) by (nonlinear_arith)
        requires r_b < den, m_a >= 1,
    ;
    assert(m_b * r_a >= 0) by (nonlinear_arith)
        requires r_a >= 0, m_b >= 1,
    ;
    assert(x < m_b) by (nonlinear_arith)
        requires
            den * x == m_b * r_a - m_a * r_b,
            m_b * r_a < m_b * den,
            m_a * r_b >= 0,
            den >= 1,
    ;
    assert(x > -m_a) by (nonlinear_arith)
        requires
            den * x == m_b * r_a - m_a * r_b,
            m_a * r_b < m_a * den,
            m_b * r_a >= 0,
            den >= 1,
    ;
    if r_a == 0 && r_b == 0 {
        assert(x == 0) by (nonlinear_arith)
            requires
                den * x == m_b * r_a - m_a * r_b,
                r_a == 0,
                r_b == 0,
                den >= 1000,
        ;
    }
    if diff >= 0 {
        assert(m_a * dv_axis(m_b, diff, d2) - m_b * dv_axis(m_a, diff, d2) == x);
    } else {
        assert(m_a * dv_axis(m_b, diff, d2) - m_b * dv_axis(m_a, diff, d2) == -x)
            by (nonlinear_arith)
            requires
                dv_axis(m_b, diff, d2) == -q_b,
                dv_axis(m_a, diff, d2) == -q_a,
                x == m_a * q_b - m_b * q_a,
        ;
    }
}

/// Total momentum of a body sequence, per axis, in sub-units.
pub open spec fn momentum(s: Seq<Body>) -> (int, int, int)
    decreases s.len(),
{
    if s.len() == 0 {
        (0, 0, 0)
    } else {
        let p = momentum(s.drop_last());
        let b = s.last();
        (
            p.0 + b.mass * b.vel.x,
            p.1 + b.mass * b.vel.y,
            p.2 + b.mass * b.vel.z,
        )
    }
}

/// Replacing one body shifts each momentum component by the difference
/// of the two bodies' contributions.
proof fn lemma_momentum_update(s: Seq<Body>, i: int, b: Body)
    requires
        0 <= i < s.len(),
    ensures
        momentum(s.update(i, b)).0
            == momentum(s).0 - s[i].mass * s[i].vel.x + b.mass * b.vel.x,
        momentum(s.update(i, b)).1
            == momentum(s).1 - s[i].mass * s[i].vel.y + b.mass * b.vel.y,
        momentum(s.update(i, b)).2
            == momentum(s).2 - s[i].mass * s[i].vel.z + b.mass * b.vel.z,
    decreases s.len(),
{
    if i == s.len() - 1 {
        assert(s.update(i, b).drop_last() =~= s.drop_last());
        assert(s.update(i, b).last() == b);
    } else {
        assert(s.update(i, b).drop_last() =~= s.drop_last().update(i, b));
        assert(s.update(i, b).last() == s.last());
        lemma_momentum_update(s.drop_last(), i, b);
    }
}

/// Every pair of the enumeration names two distinct indices below `n`,
/// low before high.
pub open spec fn valid_pairs(ps: Seq<(int, int)>, n: int) -> bool {
    forall|t: int| 0 <= t < ps.len() ==> 0 <= (#[trigger] ps[t]).0 < ps[t].1 < n
}

/// No velocity reaches the model's edge at the moment its pair is
/// visited: every clamp in the pass is inactive.
pub open spec fn pair_unclamped(s: Seq<Body>, i: int, j: int) -> bool {
    let d2 = dist2_of(s[i], s[j]);
    d2 == 0 || {
        &&& iabs(s[i].vel.x + dv_axis(s[j].mass as int, s[j].pos.x - s[i].pos.x, d2))
            <= VEL_MAX
        &&& iabs(s[i].vel.y + dv_axis(s[j].mass as int, s[j].pos.y - s[i].pos.y, d2))
            <= VEL_MAX
        &&& iabs(s[i].vel.z + dv_axis(s[j].mass as int, s[j].pos.z - s[i].pos.z, d2))
            <= VEL_MAX
        &&& iabs(s[j].vel.x - dv_axis(s[i].mass as int, s[j].pos.x - s[i].pos.x, d2))
            <= VEL_MAX
        &&& iabs(s[j].vel.y - dv_axis(s[i].mass as int, s[j].pos.y - s[i].pos.y, d2))
            <= VEL_MAX
        &&& iabs(s[j].vel.z - dv_axis(s[i].mass as int, s[j].pos.z - s[i].pos.z, d2))
            <= VEL_MAX
    }
}

/// The clamp stays inactive through the whole fold.
pub open spec fn fold_unclamped(s: Seq<Body>, ps: Seq<(int, int)>) -> bool {
    forall|t: int| 0 <= t < ps.len()
        ==> pair_unclamped(grav_fold(s, ps.take(t)), (#[trigger] ps[t]).0, ps[t].1)
}

/// The sum, over an enumeration, of the two named masses of each pair.
pub open spec fn pair_mass_sum(s: Seq<Body>, ps: Seq<(int, int)>) -> int
    decreases ps.len(),
{
    if ps.len() == 0 {
        0
    } else {
        pair_mass_sum(s, ps.drop_last()) + s[ps.last().0].mass + s[ps.last().1].mass
    }
}

/// Folding pair updates touches only velocities: length, positions,
/// masses and tags come through unchanged.
proof fn lemma_grav_fold_preserves(s: Seq<Body>, ps: Seq<(int, int)>)
    requires
        valid_pairs(ps, s.len() as int),
    ensures
        grav_fold(s, ps).len() == s.len(),
        forall|k: int| 0 <= k < s.len()
            ==> (#[trigger] grav_fold(s, ps)[k]).pos == s[k].pos
                && grav_fold(s, ps)[k].mass == s[k].mass
                && grav_fold(s, ps)[k].appearance == s[k].appearance,
    decreases ps.len(),
{
    if ps.len() > 0 {
        let ps0 = ps.drop_last();
        assert(valid_pairs(ps0, s.len() as int)) by {
            assert(forall|t: int| 0 <= t < ps0.len() ==> ps0[t] == ps[t]);
        }
        lemma_grav_fold_preserves(s, ps0);
    }
}

/// Momentum conservation over any prefix-closed run of pair updates:
/// while no clamp fires, each axis's total momentum drifts by at most
/// the sum over the visited pairs of the pair's total mass (one
/// truncation per body per visit), in sub-units.
pub proof fn lemma_grav_fold_momentum(s: Seq<Body>, ps: Seq<(int, int)>)
    requires
        forall|k: int| 0 <= k < s.len() ==> (#[trigger] s[k]).mass >= 1,
        valid_pairs(ps, s.len() as int),
        fold_unclamped(s, ps),
    ensures
        iabs(momentum(grav_fold(s, ps)).0 - momentum(s).0) <= pair_mass_sum(s, ps),
        iabs(momentum(grav_fold(s, ps)).1 - momentum(s).1) <= pair_mass_sum(s, ps),
        iabs(momentum(grav_fold(s, ps)).2 - momentum(s).2) <= pair_mass_sum(s, ps),
    decreases ps.len(),
{
    if ps.len() == 0 {
        return ;
    }
    let ps0 = ps.drop_last();
    let i = ps.last().0;
    let j = ps.last().1;
    assert(valid_pairs(ps0, s.len() as int)) by {
        assert(forall|t: int| 0 <= t < ps0.len() ==> ps0[t] == ps[t]);
    }
    assert(fold_unclamped(s, ps0)) by {
        assert forall|t: int| 0 <= t < ps0.len()
            implies pair_unclamped(grav_fold(s, ps0.take(t)), (#[trigger] ps0[t]).0,
                ps0[t].1) by {
            assert(ps0.take(t) =~= ps.take(t));
            assert(ps0[t] == ps[t]);
            assert(pair_unclamped(grav_fold(s, ps.take(t)), ps[t].0, ps[t].1));
        }
    }
    lemma_grav_fold_momentum(s, ps0);
    lemma_grav_fold_preserves(s, ps0);
    let st = grav_fold(s, ps0);
    assert(grav_fold(s, ps) == grav_pair_spec(st, i, j));
    assert(pair_unclamped(st, i, j)) by {
        assert(ps.take(ps.len() - 1) =~= ps0);
        assert(ps[ps.len() - 1] == (i, j));
    }
    let m_i = st[i].mass as int;
    let m_j = st[j].mass as int;
    assert(m_i == s[i].mass && m_j == s[j].mass);
    assert(m_i >= 1 && m_j >= 1);
    let d2 = dist2_of(st[i], st[j]);
    if d2 == 0 {
        assert(grav_pair_spec(st, i, j) == st);
    } else {
        assert((st[j].pos.x - st[i].pos.x) * (st[j].pos.x - st[i].pos.x) >= 0)
            by (nonlinear_arith);
        assert((st[j].pos.y - st[i].pos.y) * (st[j].pos.y - st[i].pos.y) >= 0)
            by (nonlinear_arith);
        assert((st[j].pos.z - st[i].pos.z) * (st[j].pos.z - st[i].pos.z) >= 0)
            by (nonlinear_arith);
        assert(d2 >= 1);
        lemma_pair_step_momentum(st, i, j);
    }
}

/// One unclamped pair update moves each axis's total momentum by less
/// than the pair's total mass.
proof fn lemma_pair_step_momentum(st: Seq<Body>, i: int, j: int)
    requires
        0 <= i < st.len(),
        0 <= j < st.len(),
        i != j,
        st[i].mass >= 1,
        st[j].mass >= 1,
        dist2_of(st[i], st[j]) >= 1,
        pair_unclamped(st, i, j),
    ensures
        iabs(momentum(grav_pair_spec(st, i, j)).0 - momentum(st).0)
            < st[i].mass + st[j].mass,
        iabs(momentum(grav_pair_spec(st, i, j)).1 - momentum(st).1)
            < st[i].mass + st[j].mass,
        iabs(momentum(grav_pair_spec(st, i, j)).2 - momentum(st).2)
            < st[i].mass + st[j].mass,
{
    let m_i = st[i].mass as int;
    let m_j = st[j].mass as int;
    let d2 = dist2_of(st[i], st[j]);
    let dvax = dv_axis(m_j, st[j].pos.x - st[i].pos.x, d2);
    let dvay = dv_axis(m_j, st[j].pos.y - st[i].pos.y, d2);
    let dvaz = dv_axis(m_j, st[j].pos.z - st[i].pos.z, d2);
    let dvbx = dv_axis(m_i, st[j].pos.x - st[i].pos.x, d2);
    let dvby = dv_axis(m_i, st[j].pos.y - st[i].pos.y, d2);
    let dvbz = dv_axis(m_i, st[j].pos.z - st[i].pos.z, d2);
    let bi = st[i];
    let bj = st[j];
    let nbi = Body {
        pos: bi.pos,
        vel: V3 {
            x: clamp_vel(bi.vel.x + dvax),
            y: clamp_vel(bi.vel.y + dvay),
            z: clamp_vel(bi.vel.z + dvaz),
        },
        mass: bi.mass,
        appearance: bi.appearance,
    };
    let nbj = Body {
        pos: bj.pos,
        vel: V3 {
            x: clamp_vel(bj.vel.x - dvbx),
            y: clamp_vel(bj.vel.y - dvby),
            z: clamp_vel(bj.vel.z - dvbz),
        },
        mass: bj.mass,
        appearance: bj.appearance,
    };
    assert(grav_pair_spec(st, i, j) == st.update(i, nbi).update(j, nbj));
    assert(nbi.vel.x as int == bi.vel.x + dvax);
    assert(nbi.vel.y as int == bi.vel.y + dvay);
    assert(nbi.vel.z as int == bi.vel.z + dvaz);
    assert(nbj.vel.x as int == bj.vel.x - dvbx);
    assert(nbj.vel.y as int == bj.vel.y - dvby);
    assert(nbj.vel.z as int == bj.vel.z - dvbz);
    lemma_momentum_update(st, i, nbi);
    let s1 = st.update(i, nbi);
    assert(s1[j] == bj);
    lemma_momentum_update(s1, j, nbj);
    lemma_pair_momentum_bound(m_i, m_j, st[j].pos.x - st[i].pos.x, d2);
    lemma_pair_momentum_bound(m_i, m_j, st[j].pos.y - st[i].pos.y, d2);
    lemma_pair_momentum_bound(m_i, m_j, st[j].pos.z - st[i].pos.z, d2);
    assert(momentum(st.update(i, nbi).update(j, nbj)).0 - momentum(st).0
        == m_i * dvax - m_j * dvbx) by (nonlinear_arith)
        requires
            momentum(s1).0 == momentum(st).0 - m_i * (bi.vel.x as int)
                + m_i * (bi.vel.x + dvax),
            momentum(st.update(i, nbi).update(j, nbj)).0
                == momentum(s1).0 - m_j * (bj.vel.x as int) + m_j * (bj.vel.x - dvbx),
    ;
    assert(momentum(st.update(i, nbi).update(j, nbj)).1 - momentum(st).1
        == m_i * dvay - m_j * dvby) by (nonlinear_arith)
        requires
            momentum(s1).1 == momentum(st).1 - m_i * (bi.vel.y as int)
                + m_i * (bi.vel.y + dvay),
            momentum(st.update(i, nbi).update(j, nbj)).1
                == momentum(s1).1 - m_j * (bj.vel.y as int) + m_j * (bj.vel.y - dvby),
    ;
    assert(momentum(st.update(i, nbi).update(j, nbj)).2 - momentum(st).2
        == m_i * dvaz - m_j * dvbz) by (nonlinear_arith)
        requires
            momentum(s1).2 == momentum(st).2 - m_i * (bi.vel.z as int)
                + m_i * (bi.vel.z + dvaz),
            momentum(st.update(i, nbi).update(j, nbj)).2
                == momentum(s1).2 - m_j * (bj.vel.z as int) + m_j * (bj.vel.z - dvbz),
    ;
}

/// Momentum conservation over one whole gravity pass of any
/// population: while no velocity reaches the model's edge, each axis's
/// total momentum before and after the pass differs by at most the sum
/// over all visited pairs of the pair's total mass — one sub-unit
/// truncation per body per pair visit.
pub proof fn lemma_gravity_pass_momentum(s: Seq<Body>)
    requires
        forall|k: int| 0 <= k < s.len() ==> (#[trigger] s[k]).mass >= 1,
        fold_unclamped(s, all_pairs(s.len() as int)),
    ensures
        iabs(momentum(gravity_spec(s)).0 - momentum(s).0)
            <= pair_mass_sum(s, all_pairs(s.len() as int)),
        iabs(momentum(gravity_spec(s)).1 - momentum(s).1)
            <= pair_mass_sum(s, all_pairs(s.len() as int)),
        iabs(momentum(gravity_spec(s)).2 - momentum(s).2)
            <= pair_mass_sum(s, all_pairs(s.len() as int)),
{
    crate::pairs::lemma_all_pairs_in_range(s.len() as int);
    lemma_grav_fold_momentum(s, all_pairs(s.len() as int));
}

/// Momentum conservation over one whole gravity pass of a two-body
/// system, away from the velocity clamp: on each axis, the total
/// momentum after the pass differs from the total before by strictly
/// less than the total mass in sub-units (one truncation per body).
pub proof fn lemma_gravity_pass_momentum_two(s: Seq<Body>)
    requires
        s.len() == 2,
        wf_body(s[0]),
        wf_body(s[1]),
        dist2_of(s[0], s[1]) != 0,
        iabs(s[0].vel.x + dv_axis(s[1].mass as int, s[1].pos.x - s[0].pos.x,
            dist2_of(s[0], s[1]))) <= VEL_MAX,
        iabs(s[0].vel.y + dv_axis(s[1].mass as int, s[1].pos.y - s[0].pos.y,
            dist2_of(s[0], s[1]))) <= VEL_MAX,
        iabs(s[0].vel.z + dv_axis(s[1].mass as int, s[1].pos.z - s[0].pos.z,
            dist2_of(s[0], s[1]))) <= VEL_MAX,
        iabs(s[1].vel.x - dv_axis(s[0].mass as int, s[1].pos.x - s[0].pos.x,
            dist2_of(s[0], s[1]))) <= VEL_MAX,
        iabs(s[1].vel.y - dv_axis(s[0].mass as int, s[1].pos.y - s[0].pos.y,
            dist2_of(s[0], s[1]))) <= VEL_MAX,
        iabs(s[1].vel.z - dv_axis(s[0].mass as int, s[1].pos.z - s[0].pos.z,
            dist2_of(s[0], s[1]))) <= VEL_MAX,
    ensures
        gravity_spec(s).len() == 2,
        gravity_spec(s)[0].mass == s[0].mass,
        gravity_spec(s)[1].mass == s[1].mass,
        iabs(s[0].mass * gravity_spec(s)[0].vel.x + s[1].mass * gravity_spec(s)[1].vel.x
            - (s[0].mass * s[0].vel.x + s[1].mass * s[1].vel.x))
            < s[0].mass + s[1].mass,
        iabs(s[0].mass * gravity_spec(s)[0].vel.y + s[1].mass * gravity_spec(s)[1].vel.y
            - (s[0].mass * s[0].vel.y + s[1].mass * s[1].vel.y))
            < s[0].mass + s[1].mass,
        iabs(s[0].mass * gravity_spec(s)[0].vel.z + s[1].mass * gravity_spec(s)[1].vel.z
            - (s[0].mass * s[0].vel.z + s[1].mass * s[1].vel.z))
            < s[0].mass + s[1].mass,
{
    assert(rows_upto(2, 0) =~= Seq::<(int, int)>::empty());
    assert(rows_upto(2, 1) == rows_upto(2, 0) + row(0, 2));
    assert(rows_upto(2, 2) == rows_upto(2, 1) + row(1, 2));
    assert(row(1, 2).len() == 0);
    assert(row(0, 2).len() == 1);
    assert(row(0, 2)[0] == (0int, 1int));
    let ps = all_pairs(2);
    assert(ps =~= seq![(0int, 1int)]);
    assert(ps.drop_last() =~= Seq::<(int, int)>::empty());
    assert(grav_fold(s, Seq::<(int, int)>::empty()) == s);
    assert(ps.len() == 1);
    assert(grav_fold(s, ps) == grav_pair_spec(grav_fold(s, ps.drop_last()),
        ps.last().0, ps.last().1));
    assert(ps.last() == (0int, 1int));
    assert(gravity_spec(s) == grav_pair_spec(s, 0, 1));
    let d2 = dist2_of(s[0], s[1]);
    assert((s[1].pos.x - s[0].pos.x) * (s[1].pos.x - s[0].pos.x) >= 0) by (nonlinear_arith);
    assert((s[1].pos.y - s[0].pos.y) * (s[1].pos.y - s[0].pos.y) >= 0) by (nonlinear_arith);
    assert((s[1].pos.z - s[0].pos.z) * (s[1].pos.z - s[0].pos.z) >= 0) by (nonlinear_arith);
    assert(d2 >= 1);
    let m0 = s[0].mass as int;
    let m1 = s[1].mass as int;
    lemma_momentum_axis(m0, m1, s[0].vel.x as int, s[1].vel.x as int,
        s[1].pos.x - s[0].pos.x, d2);
    lemma_momentum_axis(m0, m1, s[0].vel.y as int, s[1].vel.y as int,
        s[1].pos.y - s[0].pos.y, d2);
    lemma_momentum_axis(m0, m1, s[0].vel.z as int, s[1].vel.z as int,
        s[1].pos.z - s[0].pos.z, d2);
}

/// One axis of the two-body momentum argument: with the clamp known
/// inactive, the updated velocities shift the pair momentum by the
/// pairwise truncation difference, bounded by the pair's total mass.
proof fn lemma_momentum_axis(m_a: int, m_b: int, va: int, vb: int, diff: int, d2: int)
    requires
        1 <= m_a,
        1 <= m_b,
        1 <= d2,
        iabs(va + dv_axis(m_b, diff, d2)) <= VEL_MAX,
        iabs(vb - dv_axis(m_a, diff, d2)) <= VEL_MAX,
    ensures
        iabs(m_a * (clamp_vel(va + dv_axis(m_b, diff, d2)) as int)
            + m_b * (clamp_vel(vb - dv_axis(m_a, diff, d2)) as int)
            - (m_a * va + m_b * vb)) < m_a + m_b,
{
    let dva = dv_axis(m_b, diff, d2);
    let dvb = dv_axis(m_a, diff, d2);
    assert(clamp_vel(va + dva) as int == va + dva);
    assert(clamp_vel(vb - dvb) as int == vb - dvb);
    lemma_pair_momentum_bound(m_a, m_b, diff, d2);
    assert(m_a * (va + dva) + m_b * (vb - dvb) - (m_a * va + m_b * vb)
        == m_a * dva - m_b * dvb) by (nonlinear_arith);
}

/// One pair of the gravity pass, applied in place.
fn grav_apply_pair(bodies: &mut Vec<Body>, i: usize, j: usize)
    requires
        i < j < old(bodies)@.len(),
        wf_body(old(bodies)@[i as int]),
        wf_body(old(bodies)@[j as int]),
    ensures
        final(bodies)@ == grav_pair_spec(old(bodies)@, i as int, j as int),
        final(bodies)@.len() == old(bodies)@.len(),
        forall|k: int| 0 <= k < old(bodies)@.len() && k != i && k != j
            ==> final(bodies)@[k] == old(bodies)@[k],
        forall|k: int| 0 <= k < old(bodies)@.len()
            ==> (#[trigger] final(bodies)@[k]).pos == old(bodies)@[k].pos
                && final(bodies)@[k].mass == old(bodies)@[k].mass
                && final(bodies)@[k].appearance == old(bodies)@[k].appearance,
        wf_body(final(bodies)@[i as int]),
        wf_body(final(bodies)@[j as int]),
{
    let bi = bodies[i];
    let bj = bodies[j];
    let dx = bj.pos.x - bi.pos.x;
    let dy = bj.pos.y - bi.pos.y;
    let dz = bj.pos.z - bi.pos.z;
    proof {
        assert((dx as int) * (dx as int) >= 0 && (dx as int) * (dx as int)
            <= 40_000_000_000_000_000_000_000) by (nonlinear_arith)
            requires iabs(dx as int) <= 200_000_000_000,
        ;
        assert((dy as int) * (dy as int) >= 0 && (dy as int) * (dy as int)
            <= 40_000_000_000_000_000_000_000) by (nonlinear_arith)
            requires iabs(dy as int) <= 200_000_000_000,
        ;
        assert((dz as int) * (dz as int) >= 0 && (dz as int) * (dz as int)
            <= 40_000_000_000_000_000_000_000) by (nonlinear_arith)
            requires iabs(dz as int) <= 200_000_000_000,
        ;
    }
    let d2w: i128 = (dx as i128) * (dx as i128) + (dy as i128) * (dy as i128)
        + (dz as i128) * (dz as i128);
    let ghost d2 = dist2_of(bi, bj);
    proof {
        assert(d2w as int == d2);
    }
    if d2w == 0 {
        return ;
    }
    let d2u: u128 = d2w as u128;
    let dist: u64 = isqrt(d2u);
    proof {
        if dist == 0 {
            assert((d2u as int) < sq((dist as int) + 1));
            assert((dist as int + 1) * (dist as int + 1) == 1) by (nonlinear_arith)
                requires dist as int == 0,
            ;
            assert(false);
        }
        assert(dist as int <= 400_000_000_000) by (nonlinear_arith)
            requires
                sq(dist as int) <= d2u as int,
                d2u as int <= 120_000_000_000_000_000_000_000,
                dist as int >= 0,
        ;
    }
    let du: u128 = dist as u128;
    proof {
        assert(du * du <= 160_000_000_000_000_000_000_000) by (nonlinear_arith)
            requires du <= 400_000_000_000,
        ;
        assert(du * du * du <= 64_000_000_000_000_000_000_000_000_000_000_000)
            by (nonlinear_arith)
            requires du <= 400_000_000_000,
        ;
        assert(du * du * du >= 1) by (nonlinear_arith)
            requires du >= 1,
        ;
    }
    let den: u128 = 1000 * (du * du * du);
    proof {
        assert(den as int == grav_den(d2));
    }
    let dvix = dv_exec(bj.mass, dx, den, Ghost(d2));
    let dviy = dv_exec(bj.mass, dy, den, Ghost(d2));
    let dviz = dv_exec(bj.mass, dz, den, Ghost(d2));
    let dvjx = dv_exec(bi.mass, dx, den, Ghost(d2));
    let dvjy = dv_exec(bi.mass, dy, den, Ghost(d2));
    let dvjz = dv_exec(bi.mass, dz, den, Ghost(d2));
    let nvi = V3 {
        x: clamp_to(bi.vel.x as i128 + dvix, VEL_MAX),
        y: clamp_to(bi.vel.y as i128 + dviy, VEL_MAX),
        z: clamp_to(bi.vel.z as i128 + dviz, VEL_MAX),
    };
    let nvj = V3 {
        x: clamp_to(bj.vel.x as i128 - dvjx, VEL_MAX),
        y: clamp_to(bj.vel.y as i128 - dvjy, VEL_MAX),
        z: clamp_to(bj.vel.z as i128 - dvjz, VEL_MAX),
    };
    let nbi = Body { pos: bi.pos, vel: nvi, mass: bi.mass, appearance: bi.appearance };
    let nbj = Body { pos: bj.pos, vel: nvj, mass: bj.mass, appearance: bj.appearance };
    bodies[i] = nbi;
    bodies[j] = nbj;
    proof {
        assert(bodies@ =~= grav_pair_spec(old(bodies)@, i as int, j as int));
    }
}

impl crate::world::World {
    /// The gravity accumulator: visit every unordered pair of distinct
    /// live bodies exactly once and update both velocities in place;
    /// positions, masses and appearances are untouched and no body is
    /// created or destroyed.
    pub fn gravity(&mut self)
        requires
            crate::world::wf_world(old(self).bodies@),
        ensures
            final(self).bodies@ == gravity_spec(old(self).bodies@),
            crate::world::wf_world(final(self).bodies@),
            final(self).bodies@.len() == old(self).bodies@.len(),
            total_mass(final(self).bodies@) == total_mass(old(self).bodies@),
            forall|k: int| 0 <= k < old(self).bodies@.len()
                ==> (#[trigger] final(self).bodies@[k]).pos == old(self).bodies@[k].pos
                    && final(self).bodies@[k].mass == old(self).bodies@[k].mass
                    && final(self).bodies@[k].appearance == old(self).bodies@[k].appearance,
    {
        let ghost s0 = self.bodies@;
        let n = self.bodies.len();
        let ghost ni = n as int;
        let mut i: usize = 0;
        proof {
            assert(rows_upto(ni, 0) =~= Seq::<(int, int)>::empty());
        }
        while i < n
            invariant
                i <= n,
                n == self.bodies@.len(),
                n == s0.len(),
                ni == n as int,
                self.bodies@ == grav_fold(s0, rows_upto(ni, i as int)),
                forall|k: int| 0 <= k < ni ==> wf_body(#[trigger] self.bodies@[k]),
                forall|k: int| 0 <= k < ni
                    ==> (#[trigger] self.bodies@[k]).pos == s0[k].pos
                        && self.bodies@[k].mass == s0[k].mass
                        && self.bodies@[k].appearance == s0[k].appearance,
                forall|k: int| 0 <= k < ni ==> wf_body(#[trigger] s0[k]),
            decreases n - i,
        {
            let mut j: usize = i + 1;
            proof {
                assert(row(i as int, ni).take(0) =~= Seq::<(int, int)>::empty());
                assert(rows_upto(ni, i as int) + Seq::<(int, int)>::empty()
                    =~= rows_upto(ni, i as int));
            }
            while j < n
                invariant
                    i < n,
                    i + 1 <= j <= n,
                    n == self.bodies@.len(),
                    n == s0.len(),
                    ni == n as int,
                    self.bodies@ == grav_fold(s0,
                        rows_upto(ni, i as int) + row(i as int, ni).take(j - i - 1)),
                    forall|k: int| 0 <= k < ni ==> wf_body(#[trigger] self.bodies@[k]),
                    forall|k: int| 0 <= k < ni
                        ==> (#[trigger] self.bodies@[k]).pos == s0[k].pos
                            && self.bodies@[k].mass == s0[k].mass
                            && self.bodies@[k].appearance == s0[k].appearance,
                    forall|k: int| 0 <= k < ni ==> wf_body(#[trigger] s0[k]),
                decreases n - j,
            {
                let ghost pre = self.bodies@;
                let ghost taken = rows_upto(ni, i as int)
                    + row(i as int, ni).take(j - i - 1);
                grav_apply_pair(&mut self.bodies, i, j);
                proof {
                    assert(row(i as int, ni)[j - i - 1] == (i as int, j as int));
                    assert(row(i as int, ni).take(j as int - i - 1 + 1)
                        =~= row(i as int, ni).take(j - i - 1).push((i as int, j as int)));
                    assert(rows_upto(ni, i as int)
                        + row(i as int, ni).take(j - i - 1).push((i as int, j as int))
                        =~= taken.push((i as int, j as int)));
                    lemma_grav_fold_push(s0, taken, i as int, j as int);
                    assert(self.bodies@ == grav_pair_spec(pre, i as int, j as int));
                }
                j = j + 1;
            }
            proof {
                assert(row(i as int, ni).take(n - i - 1) =~= row(i as int, ni));
                assert(rows_upto(ni, i as int + 1)
                    == rows_upto(ni, i as int) + row(i as int, ni));
            }
            i = i + 1;
        }
        proof {
            assert(self.bodies@ == grav_fold(s0, rows_upto(ni, ni)));
            assert(gravity_spec(s0) == grav_fold(s0, rows_upto(ni, ni)));
            lemma_total_mass_congruent(self.bodies@, s0);
        }
    }
}

} // verus!
