//! Single-agent state and the per-step force model.
//!
//! Each agent steers by three social forces computed over its neighbors
//! (separation, alignment, cohesion), has its speed clamped, is repelled
//! from the viewport walls, and finally advances by its velocity.

use vstd::prelude::*;
use crate::fx::{
    absi, fx_div, fx_div_spec, fx_mul, fx_mul_spec, lemma_component_le_sqrt, lemma_rescale_bound,
    lemma_sqrt_floor_le, lemma_tdiv, lemma_tdiv_ge_one, lemma_tdiv_le, mul_ratio, sqrt_floor,
    t_div, tdiv, SCALE,
};
use crate::vector::{in_range, mag_spec, mag_sq, Vector, V2};

verus! {

/// Fixed capacity of a flock: the population never exceeds this.
pub const MAX_BOIDS: u32 = 150;

/// Largest supported viewport dimension, in pixels.
pub const MAX_DIM: u64 = 1_000_000;

/// Interaction radius: agents farther apart than this ignore each other.
pub const RADIUS_FX: i128 = 80 * SCALE;

/// Weight of the separation force.
pub const SEPARATION_FACTOR_FX: i128 = 30 * SCALE;

/// Weight of the alignment force (0.02).
pub const ALIGNMENT_FACTOR_FX: i128 = 200;

/// Weight of the cohesion force (0.0035).
pub const COHESION_FACTOR_FX: i128 = 35;

/// Speed limit enforced by the clamp step.
pub const MAX_SPEED_FX: i128 = 4 * SCALE;

/// Distance from a wall at which the wall force engages.
pub const WALL_RADIUS_FX: i128 = 100 * SCALE;

/// Strength of the wall force.
pub const WALL_FACTOR_FX: i128 = 100 * SCALE;

/// Positions saturate at this raw magnitude; it is astronomically far
/// outside any supported viewport.
pub const POS_LIMIT: i128 = 1_000_000_000_000_000;

/// Every stored velocity coordinate stays within this bound: the speed
/// clamp bounds each coordinate by `MAX_SPEED_FX` and each axis gains at
/// most one wall term of at most `WALL_FACTOR_FX`.
pub const VEL_LIMIT: i128 = MAX_SPEED_FX + WALL_FACTOR_FX;

/// Bound on a single separation term: a neighbor is closer than
/// `RADIUS_FX`, and the denominator is at least one raw step.
pub const SEP_TERM_LIM: i128 = RADIUS_FX * SCALE;

/// Mathematical model of one agent.
pub ghost struct BoidModel {
    pub pos: V2,
    pub vel: V2,
}

/// One simulated agent: a position and a velocity, both fixed-point.
#[derive(Clone, Copy, Debug, PartialEq, Eq, Structural)]
pub struct Boid {
    pub position: Vector,
    pub velocity: Vector,
}

impl View for Boid {
    type V = BoidModel;

    open spec fn view(&self) -> BoidModel {
        BoidModel { pos: self.position@, vel: self.velocity@ }
    }
}

/// The coordinate bounds every stored agent satisfies.
pub open spec fn boid_ok(b: BoidModel) -> bool {
    in_range(b.pos, POS_LIMIT as int) && in_range(b.vel, VEL_LIMIT as int)
}

/// Every agent of the sequence satisfies the coordinate bounds.
pub open spec fn all_ok(s: Seq<BoidModel>) -> bool {
    forall|i: int| 0 <= i < s.len() ==> boid_ok(#[trigger] s[i])
}

/// The models of a sequence of agents.
pub open spec fn models(s: Seq<Boid>) -> Seq<BoidModel> {
    s.map_values(|b: Boid| b@)
}

/// The neighbor set of the agent at index `skip` among the first `n`
/// agents: everything before it, then everything strictly after it.  A
/// `skip` outside `[0, n)` selects the whole prefix.
pub open spec fn others_models(s: Seq<Boid>, n: int, skip: int) -> Seq<BoidModel> {
    if 0 <= skip < n {
        models(s.subrange(0, skip)) + models(s.subrange(skip + 1, n))
    } else {
        models(s.subrange(0, n))
    }
}

/// Offset from a neighbor to the agent.
pub open spec fn delta(b: BoidModel, o: BoidModel) -> V2 {
    V2 { x: b.pos.x - o.pos.x, y: b.pos.y - o.pos.y }
}

/// Fixed-point distance between two agents.
pub open spec fn dist(b: BoidModel, o: BoidModel) -> int {
    mag_spec(delta(b, o))
}

/// Two agents interact exactly when their distance is below `RADIUS_FX`.
pub open spec fn is_neighbor(b: BoidModel, o: BoidModel) -> bool {
    dist(b, o) < RADIUS_FX
}

/// Cubed distance used as the separation denominator, kept at least one
/// raw step so that exactly coincident agents produce a finite force.
pub open spec fn sep_den(b: BoidModel, o: BoidModel) -> int {
    let d = dist(b, o);
    let d3 = fx_mul_spec(fx_mul_spec(d, d), d);
    if d3 < 1 {
        1
    } else {
        d3
    }
}

/// Accumulated neighbor data: the neighbor count, the separation force
/// sum, and the neighbors' summed velocities and positions.
pub ghost struct Forces {
    pub n: int,
    pub sep: V2,
    pub vel: V2,
    pub pos: V2,
}

/// The empty accumulation.
pub open spec fn forces_zero() -> Forces {
    Forces {
        n: 0,
        sep: V2 { x: 0, y: 0 },
        vel: V2 { x: 0, y: 0 },
        pos: V2 { x: 0, y: 0 },
    }
}

/// Accumulates one candidate neighbor `o` into `f`.
pub open spec fn force_one(b: BoidModel, f: Forces, o: BoidModel) -> Forces {
    if is_neighbor(b, o) {
        Forces {
            n: f.n + 1,
            sep: V2 {
                x: f.sep.x + fx_div_spec(delta(b, o).x, sep_den(b, o)),
                y: f.sep.y + fx_div_spec(delta(b, o).y, sep_den(b, o)),
            },
            vel: V2 { x: f.vel.x + o.vel.x, y: f.vel.y + o.vel.y },
            pos: V2 { x: f.pos.x + o.pos.x, y: f.pos.y + o.pos.y },
        }
    } else {
        f
    }
}

/// Accumulates every candidate neighbor in order.
pub open spec fn forces_fold(b: BoidModel, s: Seq<BoidModel>) -> Forces
    decreases s.len(),
{
    if s.len() == 0 {
        forces_zero()
    } else {
        force_one(b, forces_fold(b, s.drop_last()), s.last())
    }
}

/// Velocity after the social forces: unchanged when there is no neighbor,
/// otherwise incremented by the three weighted force terms.
pub open spec fn social_vel(b: BoidModel, f: Forces) -> V2 {
    if f.n == 0 {
        b.vel
    } else {
        V2 {
            x: b.vel.x + fx_mul_spec(SEPARATION_FACTOR_FX as int, f.sep.x) + fx_mul_spec(
                ALIGNMENT_FACTOR_FX as int,
                tdiv(f.vel.x, f.n),
            ) + fx_mul_spec(COHESION_FACTOR_FX as int, tdiv(f.pos.x, f.n) - b.pos.x),
            y: b.vel.y + fx_mul_spec(SEPARATION_FACTOR_FX as int, f.sep.y) + fx_mul_spec(
                ALIGNMENT_FACTOR_FX as int,
                tdiv(f.vel.y, f.n),
            ) + fx_mul_spec(COHESION_FACTOR_FX as int, tdiv(f.pos.y, f.n) - b.pos.y),
        }
    }
}

/// Velocity after the speed clamp: rescaled to `MAX_SPEED_FX` when its
/// magnitude exceeds that limit.
pub open spec fn clamp_vel(v: V2) -> V2 {
    let m = mag_spec(v);
    if m > MAX_SPEED_FX {
        V2 { x: tdiv(v.x * MAX_SPEED_FX, m), y: tdiv(v.y * MAX_SPEED_FX, m) }
    } else {
        v
    }
}

/// Distance to a wall, kept at least one unit to avoid the singularity.
pub open spec fn wall_dist(d: int) -> int {
    if d < SCALE {
        SCALE as int
    } else {
        d
    }
}

/// Inverse-square wall repulsion at clamped distance `d` from a wall.
pub open spec fn wall_term(d: int) -> int {
    fx_div_spec(WALL_FACTOR_FX as int, fx_mul_spec(wall_dist(d), wall_dist(d)))
}

/// One axis of the wall force: pushed away from whichever boundary of
/// `[0, extent]` the coordinate `p` is within `WALL_RADIUS_FX` of.
pub open spec fn wall_axis(p: int, vel: int, extent: int) -> int {
    if p < WALL_RADIUS_FX {
        vel + wall_term(p)
    } else if p > extent - WALL_RADIUS_FX {
        vel - wall_term(extent - p)
    } else {
        vel
    }
}

/// A coordinate saturated into the representable range.
pub open spec fn clamp_coord(p: int) -> int {
    if p > POS_LIMIT {
        POS_LIMIT as int
    } else if p < -POS_LIMIT {
        -POS_LIMIT as int
    } else {
        p
    }
}

/// The whole per-agent update applied to accumulated forces `f`: social
/// forces, speed clamp, wall force, then Euler integration.
pub open spec fn apply_model(b: BoidModel, f: Forces, w: int, h: int) -> BoidModel {
    let vs = social_vel(b, f);
    let vc = clamp_vel(vs);
    let vw = V2 {
        x: wall_axis(b.pos.x, vc.x, w * SCALE),
        y: wall_axis(b.pos.y, vc.y, h * SCALE),
    };
    BoidModel {
        pos: V2 { x: clamp_coord(b.pos.x + vw.x), y: clamp_coord(b.pos.y + vw.y) },
        vel: vw,
    }
}

/// One full step of a single agent against its neighbor set.
pub open spec fn step_model(b: BoidModel, others: Seq<BoidModel>, w: int, h: int) -> BoidModel {
    apply_model(b, forces_fold(b, others), w, h)
}

/// Folding one more element applies `force_one` to the previous fold.
pub proof fn lemma_fold_push(b: BoidModel, s: Seq<BoidModel>, o: BoidModel)
    ensures
        forces_fold(b, s.push(o)) == force_one(b, forces_fold(b, s), o),
{
    assert(s.push(o).drop_last() =~= s);
    assert(s.push(o).last() == o);
}

/// The accumulated sums grow by at most one bounded term per neighbor.
pub proof fn lemma_forces_bounds(b: BoidModel, s: Seq<BoidModel>)
    requires
        all_ok(s),
    ensures
        0 <= forces_fold(b, s).n <= s.len(),
        absi(forces_fold(b, s).sep.x) <= forces_fold(b, s).n * SEP_TERM_LIM,
        absi(forces_fold(b, s).sep.y) <= forces_fold(b, s).n * SEP_TERM_LIM,
        absi(forces_fold(b, s).vel.x) <= forces_fold(b, s).n * VEL_LIMIT,
        absi(forces_fold(b, s).vel.y) <= forces_fold(b, s).n * VEL_LIMIT,
        absi(forces_fold(b, s).pos.x) <= forces_fold(b, s).n * POS_LIMIT,
        absi(forces_fold(b, s).pos.y) <= forces_fold(b, s).n * POS_LIMIT,
    decreases s.len(),
{
    if s.len() == 0 {
    } else {
        let t = s.drop_last();
        let o = s.last();
        assert(all_ok(t)) by {
            assert(forall|i: int| 0 <= i < t.len() ==> t[i] == s[i]);
        }
        lemma_forces_bounds(b, t);
        let ft = forces_fold(b, t);
        let fs = forces_fold(b, s);
        assert(fs == force_one(b, ft, o));
        if is_neighbor(b, o) {
            lemma_sep_term_bound(b, o);
            assert(boid_ok(o));
            assert((ft.n + 1) * SEP_TERM_LIM == ft.n * SEP_TERM_LIM + SEP_TERM_LIM)
                by (nonlinear_arith);
            assert((ft.n + 1) * VEL_LIMIT == ft.n * VEL_LIMIT + VEL_LIMIT) by (nonlinear_arith);
            assert((ft.n + 1) * POS_LIMIT == ft.n * POS_LIMIT + POS_LIMIT) by (nonlinear_arith);
        }
    }
}

/// A single separation term is bounded by `SEP_TERM_LIM` in each
/// coordinate.
pub proof fn lemma_sep_term_bound(b: BoidModel, o: BoidModel)
    requires
        is_neighbor(b, o),
    ensures
        1 <= sep_den(b, o),
        absi(fx_div_spec(delta(b, o).x, sep_den(b, o))) <= SEP_TERM_LIM,
        absi(fx_div_spec(delta(b, o).y, sep_den(b, o))) <= SEP_TERM_LIM,
{
    let d = delta(b, o);
    let m = dist(b, o);
    let den = sep_den(b, o);
    assert(d.x * d.x <= mag_sq(d) && d.y * d.y <= mag_sq(d)) by (nonlinear_arith)
        requires
            mag_sq(d) == d.x * d.x + d.y * d.y,
    ;
    assert(mag_sq(d) >= 0) by (nonlinear_arith)
        requires
            mag_sq(d) == d.x * d.x + d.y * d.y,
    ;
    lemma_component_le_sqrt(d.x, mag_sq(d) as nat);
    lemma_component_le_sqrt(d.y, mag_sq(d) as nat);
    assert(absi(d.x) <= m && absi(d.y) <= m);
    lemma_tdiv(d.x * SCALE, den);
    lemma_tdiv(d.y * SCALE, den);
    assert(absi(d.x * SCALE) == absi(d.x) * SCALE && absi(d.y * SCALE) == absi(d.y) * SCALE)
        by (nonlinear_arith);
    assert(absi(d.x) * SCALE <= RADIUS_FX * SCALE) by (nonlinear_arith)
        requires
            absi(d.x) <= RADIUS_FX,
    ;
    assert(absi(d.y) * SCALE <= RADIUS_FX * SCALE) by (nonlinear_arith)
        requires
            absi(d.y) <= RADIUS_FX,
    ;
}

/// Model sequences index elementwise.
pub proof fn lemma_models_index(s: Seq<Boid>)
    ensures
        models(s).len() == s.len(),
        forall|j: int| 0 <= j < s.len() ==> models(s)[j] == #[trigger] s[j]@,
{
}

/// Bounds on every agent carry over to every prefix.
pub proof fn lemma_all_ok_prefix(s: Seq<Boid>, n: int)
    requires
        all_ok(models(s)),
        0 <= n <= s.len(),
    ensures
        all_ok(models(s.take(n))),
{
    assert forall|j: int| 0 <= j < n implies boid_ok(#[trigger] models(s.take(n))[j]) by {
        assert(models(s.take(n))[j] == s[j]@);
        assert(models(s)[j] == s[j]@);
    }
}

/// Bounds on every agent survive replacing one agent by a bounded one.
pub proof fn lemma_all_ok_update(s: Seq<Boid>, i: int, b: Boid)
    requires
        all_ok(models(s)),
        0 <= i < s.len(),
        boid_ok(b@),
    ensures
        all_ok(models(s.update(i, b))),
{
    assert forall|j: int|
        0 <= j < s.len() implies boid_ok(#[trigger] models(s.update(i, b))[j]) by {
        if j == i {
            assert(models(s.update(i, b))[j] == b@);
        } else {
            assert(models(s.update(i, b))[j] == s[j]@);
            assert(models(s)[j] == s[j]@);
        }
    }
}

/// With no agent within `RADIUS_FX`, the fold accumulates nothing.
pub proof fn lemma_no_neighbor_forces(b: BoidModel, others: Seq<BoidModel>)
    requires
        forall|i: int| 0 <= i < others.len() ==> !is_neighbor(b, #[trigger] others[i]),
    ensures
        forces_fold(b, others) == forces_zero(),
    decreases others.len(),
{
    if others.len() == 0 {
    } else {
        let t = others.drop_last();
        assert(forall|i: int| 0 <= i < t.len() ==> t[i] == others[i]);
        lemma_no_neighbor_forces(b, t);
        assert(!is_neighbor(b, others.last()));
    }
}

/// A solitary agent (no neighbor within `RADIUS_FX`) gets a zero social
/// contribution from `step`: only the speed clamp, the wall force and the
/// existing velocity determine its outcome.
pub proof fn lemma_solo_step(b: BoidModel, others: Seq<BoidModel>, w: int, h: int)
    requires
        forall|i: int| 0 <= i < others.len() ==> !is_neighbor(b, #[trigger] others[i]),
    ensures
        step_model(b, others, w, h) == apply_model(b, forces_zero(), w, h),
        social_vel(b, forces_zero()) == b.vel,
{
    lemma_no_neighbor_forces(b, others);
}

/// The velocity magnitude right after the speed clamp (and before the
/// wall force) never exceeds `MAX_SPEED_FX`.
pub proof fn lemma_clamped_speed(v: V2)
    ensures
        mag_spec(clamp_vel(v)) <= MAX_SPEED_FX,
{
    let m = mag_spec(v);
    if m > MAX_SPEED_FX {
        lemma_rescale_bound(v.x, v.y, m, MAX_SPEED_FX as int);
        let w = clamp_vel(v);
        let q2 = w.x * w.x + w.y * w.y;
        assert(q2 >= 0) by (nonlinear_arith)
            requires
                q2 == w.x * w.x + w.y * w.y,
        ;
        lemma_sqrt_floor_le(q2 as nat, MAX_SPEED_FX as int);
    }
}

/// The wall repulsion term at any coordinate inside the wall radius is
/// strictly positive and at most `WALL_FACTOR_FX`.
pub proof fn lemma_wall_term_bounds(p: int)
    requires
        p < WALL_RADIUS_FX,
    ensures
        1 <= wall_term(p) <= WALL_FACTOR_FX,
{
    let d = wall_dist(p);
    assert(SCALE <= d <= WALL_RADIUS_FX);
    lemma_wall_den_bounds(d);
    let den = fx_mul_spec(d, d);
    lemma_tdiv_le(WALL_FACTOR_FX as int * SCALE as int, den, WALL_FACTOR_FX as int);
    lemma_tdiv_ge_one(WALL_FACTOR_FX as int * SCALE as int, den);
}

/// A solitary agent with zero velocity inside `WALL_RADIUS_FX` of the
/// left wall gains strictly positive horizontal velocity in one step.
pub proof fn lemma_left_wall_repels(b: BoidModel, others: Seq<BoidModel>, w: int, h: int)
    requires
        b.vel == (V2 { x: 0, y: 0 }),
        forall|i: int| 0 <= i < others.len() ==> !is_neighbor(b, #[trigger] others[i]),
        b.pos.x < WALL_RADIUS_FX,
    ensures
        1 <= step_model(b, others, w, h).vel.x,
{
    lemma_no_neighbor_forces(b, others);
    lemma_zero_vel_clamp(b.vel);
    lemma_wall_term_bounds(b.pos.x);
}

/// A solitary agent with zero velocity inside `WALL_RADIUS_FX` of the
/// right wall gains strictly negative horizontal velocity in one step.
pub proof fn lemma_right_wall_repels(b: BoidModel, others: Seq<BoidModel>, w: int, h: int)
    requires
        b.vel == (V2 { x: 0, y: 0 }),
        forall|i: int| 0 <= i < others.len() ==> !is_neighbor(b, #[trigger] others[i]),
        WALL_RADIUS_FX <= b.pos.x,
        w * SCALE - WALL_RADIUS_FX < b.pos.x,
    ensures
        step_model(b, others, w, h).vel.x <= -1,
{
    lemma_no_neighbor_forces(b, others);
    lemma_zero_vel_clamp(b.vel);
    lemma_wall_term_bounds(w * SCALE - b.pos.x);
}

/// The zero velocity passes through the speed clamp unchanged.
pub proof fn lemma_zero_vel_clamp(v: V2)
    requires
        v == (V2 { x: 0, y: 0 }),
    ensures
        clamp_vel(v) == v,
{
    assert(mag_sq(v) == 0);
    assert(sqrt_floor(0) == 0);
}

/// Accumulated neighbor data in executable form.
pub struct ForceTotals {
    pub n: u32,
    pub sep: Vector,
    pub vel: Vector,
    pub pos: Vector,
}

impl View for ForceTotals {
    type V = Forces;

    open spec fn view(&self) -> Forces {
        Forces { n: self.n as int, sep: self.sep@, vel: self.vel@, pos: self.pos@ }
    }
}

/// How many neighbors have been folded after the first `j` loop
/// iterations when index `skip` is left out.
pub open spec fn processed(j: int, skip: int, n: int) -> int {
    if 0 <= skip < n && j > skip {
        j - 1
    } else {
        j
    }
}

/// Scans the first `n` agents, skipping index `skip` (a `skip` outside
/// `[0, n)` skips nothing), and accumulates the neighbor data of `b`.
fn accumulate(b: &Boid, boids: &Vec<Boid>, n: usize, skip: usize) -> (t: ForceTotals)
    requires
        n <= boids@.len(),
        n <= MAX_BOIDS as usize,
        boid_ok(b@),
        all_ok(models(boids@.take(n as int))),
    ensures
        t@ == forces_fold(b@, others_models(boids@, n as int, skip as int)),
        all_ok(others_models(boids@, n as int, skip as int)),
        others_models(boids@, n as int, skip as int).len() <= n as int,
{
    let ghost others = others_models(boids@, n as int, skip as int);
    proof {
        assert forall|idx: int| 0 <= idx < others.len() implies boid_ok(#[trigger] others[idx]) by {
            if 0 <= (skip as int) && (skip as int) < (n as int) {
                if idx < skip as int {
                    assert(others[idx] == boids@.subrange(0, skip as int)[idx]@);
                    assert(models(boids@.take(n as int))[idx] == boids@[idx]@);
                } else {
                    assert(others[idx] == boids@.subrange(skip as int + 1, n as int)[idx
                        - skip as int]@);
                    assert(models(boids@.take(n as int))[idx + 1] == boids@[idx + 1]@);
                }
            } else {
                assert(others[idx] == boids@.subrange(0, n as int)[idx]@);
                assert(models(boids@.take(n as int))[idx] == boids@[idx]@);
            }
        };
    }
    let mut totals = ForceTotals {
        n: 0,
        sep: Vector::zero(),
        vel: Vector::zero(),
        pos: Vector::zero(),
    };
    let mut j: usize = 0;
    while j < n
        invariant
            j <= n,
            n <= boids@.len(),
            n <= MAX_BOIDS as usize,
            boid_ok(b@),
            all_ok(models(boids@.take(n as int))),
            others == others_models(boids@, n as int, skip as int),
            all_ok(others),
            others.len() == (if 0 <= (skip as int) && (skip as int) < (n as int) {
                n - 1
            } else {
                n as int
            }),
            0 <= processed(j as int, skip as int, n as int) <= others.len(),
            totals@ == forces_fold(b@, others.take(processed(j as int, skip as int, n as int))),
        decreases n - j,
    {
        let ghost k = processed(j as int, skip as int, n as int);
        if j != skip {
            proof {
                assert(k < others.len());
                if 0 <= (skip as int) && (skip as int) < (n as int) {
                    if (j as int) < skip as int {
                        assert(others[k] == boids@.subrange(0, skip as int)[k]@);
                    } else {
                        assert(others[k] == boids@.subrange(skip as int + 1, n as int)[k
                            - skip as int]@);
                    }
                } else {
                    assert(others[k] == boids@.subrange(0, n as int)[k]@);
                }
                assert(others[k] == boids@[j as int]@);
                assert(models(boids@.take(n as int))[j as int] == boids@[j as int]@);
                assert(all_ok(others.take(k))) by {
                    assert(forall|i: int| 0 <= i < k ==> others.take(k)[i] == others[i]);
                }
                lemma_forces_bounds(b@, others.take(k));
                lemma_fold_push(b@, others.take(k), others[k]);
                assert(others.take(k + 1) =~= others.take(k).push(others[k]));
            }
            let o = boids[j];
            let dvec = Vector::new(b.position.x - o.position.x, b.position.y - o.position.y);
            let dm = dvec.magnitude();
            proof {
                assert(dvec@ == delta(b@, o@));
                assert(dm as int == dist(b@, o@));
            }
            if dm < RADIUS_FX {
                let d2 = fx_mul(dm, dm);
                proof {
                    assert(absi(dm as int) * absi(dm as int) <= RADIUS_FX * RADIUS_FX)
                        by (nonlinear_arith)
                        requires
                            0 <= dm < RADIUS_FX,
                            RADIUS_FX == 800_000i128,
                    ;
                }
                let d3r = fx_mul(d2, dm);
                let d3 = if d3r < 1 {
                    1i128
                } else {
                    d3r
                };
                proof {
                    assert(d3 as int == sep_den(b@, o@));
                    lemma_sep_term_bound(b@, o@);
                    assert(totals@.n * SEP_TERM_LIM <= 150 * SEP_TERM_LIM) by (nonlinear_arith)
                        requires
                            totals@.n <= 150,
                            SEP_TERM_LIM > 0,
                    ;
                    assert(totals@.n * VEL_LIMIT <= 150 * VEL_LIMIT) by (nonlinear_arith)
                        requires
                            totals@.n <= 150,
                            VEL_LIMIT > 0,
                    ;
                    assert(totals@.n * POS_LIMIT <= 150 * POS_LIMIT) by (nonlinear_arith)
                        requires
                            totals@.n <= 150,
                            POS_LIMIT > 0,
                    ;
                }
                let sx = fx_div(dvec.x, d3);
                let sy = fx_div(dvec.y, d3);
                totals.n = totals.n + 1;
                totals.sep = Vector::new(totals.sep.x + sx, totals.sep.y + sy);
                totals.vel = Vector::new(totals.vel.x + o.velocity.x, totals.vel.y + o.velocity.y);
                totals.pos = Vector::new(totals.pos.x + o.position.x, totals.pos.y + o.position.y);
            }
            proof {
                assert(totals@ == forces_fold(b@, others.take(k + 1)));
            }
        }
        j = j + 1;
        proof {
            assert(processed(j as int, skip as int, n as int) == (if j as int - 1 == skip as int {
                k
            } else {
                k + 1
            }));
        }
    }
    proof {
        assert(others.take(others.len() as int) =~= others);
    }
    totals
}

/// One axis of the wall force: adds the inverse-square repulsion of
/// whichever boundary of the `[0, extent_px]` viewport range is near.
fn wall_axis_exec(p: i128, vel: i128, extent_px: u64) -> (r: i128)
    requires
        -POS_LIMIT <= p <= POS_LIMIT,
        -MAX_SPEED_FX <= vel <= MAX_SPEED_FX,
        extent_px <= MAX_DIM,
    ensures
        r as int == wall_axis(p as int, vel as int, extent_px as int * SCALE),
        -VEL_LIMIT <= r <= VEL_LIMIT,
{
    let extent = (extent_px as i128) * SCALE;
    if p < WALL_RADIUS_FX {
        let d = if p < SCALE {
            SCALE
        } else {
            p
        };
        let term = wall_term_exec(d);
        vel + term
    } else if p > extent - WALL_RADIUS_FX {
        let dr = extent - p;
        let d = if dr < SCALE {
            SCALE
        } else {
            dr
        };
        let term = wall_term_exec(d);
        vel - term
    } else {
        vel
    }
}

/// The inverse-square wall repulsion at clamped distance `d`; always
/// between one raw step and `WALL_FACTOR_FX`.
fn wall_term_exec(d: i128) -> (r: i128)
    requires
        SCALE <= d <= WALL_RADIUS_FX,
    ensures
        r as int == fx_div_spec(WALL_FACTOR_FX as int, fx_mul_spec(d as int, d as int)),
        1 <= r <= WALL_FACTOR_FX,
{
    let den = fx_mul(d, d);
    proof {
        lemma_wall_den_bounds(d as int);
    }
    let term = fx_div(WALL_FACTOR_FX, den);
    proof {
        lemma_tdiv_le(
            WALL_FACTOR_FX as int * SCALE as int,
            den as int,
            WALL_FACTOR_FX as int,
        );
        lemma_tdiv_ge_one(WALL_FACTOR_FX as int * SCALE as int, den as int);
    }
    term
}

/// The squared clamped wall distance, in fixed point, lies between
/// `SCALE` and `WALL_FACTOR_FX * SCALE`.
pub proof fn lemma_wall_den_bounds(d: int)
    requires
        SCALE <= d <= WALL_RADIUS_FX,
    ensures
        SCALE <= fx_mul_spec(d, d) <= WALL_FACTOR_FX as int * SCALE,
{
    assert(SCALE * SCALE <= d * d <= WALL_RADIUS_FX * WALL_RADIUS_FX) by (nonlinear_arith)
        requires
            SCALE <= d <= WALL_RADIUS_FX,
            SCALE == 10_000i128,
    ;
    assert(fx_mul_spec(d, d) == (d * d) / (SCALE as int));
    vstd::arithmetic::div_mod::lemma_div_is_ordered(
        SCALE as int * SCALE as int,
        d * d,
        SCALE as int,
    );
    vstd::arithmetic::div_mod::lemma_div_is_ordered(
        d * d,
        WALL_RADIUS_FX as int * WALL_RADIUS_FX as int,
        SCALE as int,
    );
    vstd::arithmetic::div_mod::lemma_div_by_multiple(SCALE as int, SCALE as int);
    assert(WALL_RADIUS_FX as int * WALL_RADIUS_FX as int == 1_000_000_000_000int)
        by (nonlinear_arith)
        requires
            WALL_RADIUS_FX == 1_000_000i128,
    ;
    assert(1_000_000_000_000int / (SCALE as int) == 100_000_000int);
}

/// Applies the accumulated forces to one agent: social forces, speed
/// clamp, wall force, then Euler integration.
#[verifier::rlimit(100)]
fn apply_forces(b: &Boid, t: &ForceTotals, width: u64, height: u64) -> (r: Boid)
    requires
        boid_ok(b@),
        0 <= t@.n <= MAX_BOIDS as int,
        absi(t@.sep.x) <= t@.n * SEP_TERM_LIM,
        absi(t@.sep.y) <= t@.n * SEP_TERM_LIM,
        absi(t@.vel.x) <= t@.n * VEL_LIMIT,
        absi(t@.vel.y) <= t@.n * VEL_LIMIT,
        absi(t@.pos.x) <= t@.n * POS_LIMIT,
        absi(t@.pos.y) <= t@.n * POS_LIMIT,
        width <= MAX_DIM,
        height <= MAX_DIM,
    ensures
        r@ == apply_model(b@, t@, width as int, height as int),
        boid_ok(r@),
{
    proof {
        assert(t@.n * SEP_TERM_LIM <= 150 * SEP_TERM_LIM) by (nonlinear_arith)
            requires
                t@.n <= 150,
                SEP_TERM_LIM > 0,
        ;
        assert(t@.n * VEL_LIMIT <= 150 * VEL_LIMIT) by (nonlinear_arith)
            requires
                t@.n <= 150,
                VEL_LIMIT > 0,
        ;
        assert(t@.n * POS_LIMIT <= 150 * POS_LIMIT) by (nonlinear_arith)
            requires
                t@.n <= 150,
                POS_LIMIT > 0,
        ;
    }
    let mut vx: i128 = b.velocity.x;
    let mut vy: i128 = b.velocity.y;
    if t.n > 0 {
        let cnt = t.n as i128;
        let avx = t_div(t.vel.x, cnt);
        let avy = t_div(t.vel.y, cnt);
        let apx = t_div(t.pos.x, cnt);
        let apy = t_div(t.pos.y, cnt);
        proof {
            lemma_tdiv_le(t@.vel.x, t@.n, VEL_LIMIT as int);
            lemma_tdiv_le(t@.vel.y, t@.n, VEL_LIMIT as int);
            lemma_tdiv_le(t@.pos.x, t@.n, POS_LIMIT as int);
            lemma_tdiv_le(t@.pos.y, t@.n, POS_LIMIT as int);
        }
        let cohx = apx - b.position.x;
        let cohy = apy - b.position.y;
        let s1 = fx_mul(SEPARATION_FACTOR_FX, t.sep.x);
        let s2 = fx_mul(SEPARATION_FACTOR_FX, t.sep.y);
        let a1 = fx_mul(ALIGNMENT_FACTOR_FX, avx);
        let a2 = fx_mul(ALIGNMENT_FACTOR_FX, avy);
        let c1 = fx_mul(COHESION_FACTOR_FX, cohx);
        let c2 = fx_mul(COHESION_FACTOR_FX, cohy);
        vx = vx + s1 + a1 + c1;
        vy = vy + s2 + a2 + c2;
    }
    let ghost vs = social_vel(b@, t@);
    proof {
        assert(vs == (V2 { x: vx as int, y: vy as int }));
    }
    let v1 = Vector::new(vx, vy);
    let m = v1.magnitude();
    if m > MAX_SPEED_FX {
        proof {
            lemma_rescale_bound(vx as int, vy as int, m as int, MAX_SPEED_FX as int);
        }
        let nvx = mul_ratio(vx, MAX_SPEED_FX, m);
        let nvy = mul_ratio(vy, MAX_SPEED_FX, m);
        vx = nvx;
        vy = nvy;
    } else {
        proof {
            assert(vx as int * vx as int <= mag_sq(v1@) && vy as int * vy as int <= mag_sq(v1@))
                by (nonlinear_arith)
                requires
                    mag_sq(v1@) == vx as int * vx as int + vy as int * vy as int,
            ;
            assert(mag_sq(v1@) >= 0);
            lemma_component_le_sqrt(vx as int, mag_sq(v1@) as nat);
            lemma_component_le_sqrt(vy as int, mag_sq(v1@) as nat);
        }
    }
    let ghost vc = clamp_vel(vs);
    proof {
        assert(vc == (V2 { x: vx as int, y: vy as int }));
    }
    let wvx = wall_axis_exec(b.position.x, vx, width);
    let wvy = wall_axis_exec(b.position.y, vy, height);
    let mut px: i128 = b.position.x + wvx;
    let mut py: i128 = b.position.y + wvy;
    if px > POS_LIMIT {
        px = POS_LIMIT;
    } else if px < -POS_LIMIT {
        px = -POS_LIMIT;
    }
    if py > POS_LIMIT {
        py = POS_LIMIT;
    } else if py < -POS_LIMIT {
        py = -POS_LIMIT;
    }
    Boid { position: Vector::new(px, py), velocity: Vector::new(wvx, wvy) }
}

impl Boid {
    /// An agent from its position and velocity.
    pub fn new(position: Vector, velocity: Vector) -> (r: Boid)
        ensures
            r@ == (BoidModel { pos: position@, vel: velocity@ }),
    {
        Boid { position, velocity }
    }

    /// The agent at the origin with zero velocity.
    pub fn zero() -> (r: Boid)
        ensures
            r@ == (BoidModel { pos: V2 { x: 0, y: 0 }, vel: V2 { x: 0, y: 0 } }),
    {
        Boid { position: Vector::zero(), velocity: Vector::zero() }
    }

    /// The agent's position.
    pub fn position(&self) -> (r: Vector)
        ensures
            r@ == self@.pos,
    {
        self.position
    }

    /// The agent's velocity.
    pub fn velocity(&self) -> (r: Vector)
        ensures
            r@ == self@.vel,
    {
        self.velocity
    }

    /// One step of this agent against the given neighbor set (which must
    /// not contain the agent itself).
    pub fn step(&self, others: &Vec<Boid>, width: u64, height: u64) -> (r: Boid)
        requires
            boid_ok(self@),
            others@.len() <= MAX_BOIDS as int,
            all_ok(models(others@)),
            width <= MAX_DIM,
            height <= MAX_DIM,
        ensures
            r@ == step_model(self@, models(others@), width as int, height as int),
            boid_ok(r@),
    {
        let n = others.len();
        proof {
            assert(others@.take(n as int) =~= others@);
            assert(others@.subrange(0, n as int) =~= others@);
        }
        let t = accumulate(self, others, n, n);
        proof {
            assert(others_models(others@, n as int, n as int) == models(others@));
            lemma_forces_bounds(self@, models(others@));
        }
        apply_forces(self, &t, width, height)
    }
}

/// One step of the agent at index `i` among the first `n` agents of
/// `boids`, reading only that snapshot.
pub(crate) fn step_at(boids: &Vec<Boid>, i: usize, n: usize, width: u64, height: u64) -> (r: Boid)
    requires
        i < n,
        n <= boids@.len(),
        n <= MAX_BOIDS as usize,
        all_ok(models(boids@.take(n as int))),
        width <= MAX_DIM,
        height <= MAX_DIM,
    ensures
        r@ == step_model(
            boids@[i as int]@,
            others_models(boids@, n as int, i as int),
            width as int,
            height as int,
        ),
        boid_ok(r@),
{
    let b = boids[i];
    proof {
        assert(models(boids@.take(n as int))[i as int] == boids@[i as int]@);
    }
    let t = accumulate(&b, boids, n, i);
    proof {
        lemma_forces_bounds(b@, others_models(boids@, n as int, i as int));
    }
    apply_forces(&b, &t, width, height)
}

} // verus!
