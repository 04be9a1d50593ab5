//! The managed agent population: double-buffered stepping, the
//! area-derived active count, and the triangle geometry projection.

use vstd::prelude::*;
use crate::boid::{
    all_ok, boid_ok, models, others_models, step_model, Boid, BoidModel, MAX_BOIDS, MAX_DIM,
    VEL_LIMIT,
};
use crate::fx::{absi, fx_div_spec, fx_mul_spec, lemma_component_le_sqrt, lemma_sqrt_floor,
    lemma_sqrt_floor_le, lemma_tdiv_abs_ge_one, mul_ratio, SCALE};
use crate::rng::{fresh_rng, sample_below};
use crate::vector::{mag_spec, mag_sq, map_spec, Vector, Vertex, V2};

verus! {

/// Active agents per square pixel of viewport, as the exact rational
/// `DENSITY_NUM / DENSITY_DEN` (0.00015).
pub const DENSITY_NUM: u64 = 15;

/// Denominator of the population density.
pub const DENSITY_DEN: u64 = 100_000;

/// Distance from an agent's position to the triangle's nose.
pub const FRONT_OFFSET_FX: i128 = 10 * SCALE;

/// Sideways distance from the triangle's spine to its base corners.
pub const SIDE_OFFSET_FX: i128 = 5 * SCALE;

/// Distance behind the agent's position of the triangle's base.
pub const BACK_OFFSET_FX: i128 = 2 * SCALE;

/// Smallest starting speed of a freshly placed agent.
pub const MIN_START_SPEED_FX: i128 = SCALE;

/// Starting speeds are drawn below this bound.
pub const MAX_START_SPEED_FX: i128 = 2 * SCALE;

/// The active population for a viewport: the density times the area,
/// rounded down and capped at `MAX_BOIDS`.
pub open spec fn boid_count_spec(w: int, h: int) -> int {
    let c = (w * h * DENSITY_NUM) / (DENSITY_DEN as int);
    if c < MAX_BOIDS as int {
        c
    } else {
        MAX_BOIDS as int
    }
}

/// Derives the number of active agents from the viewport area.
pub fn boid_count(width: u64, height: u64) -> (r: u32)
    requires
        width <= MAX_DIM,
        height <= MAX_DIM,
    ensures
        r as int == boid_count_spec(width as int, height as int),
        r <= MAX_BOIDS,
{
    proof {
        assert(width as int * height as int <= 1_000_000_000_000) by (nonlinear_arith)
            requires
                0 <= width as int <= 1_000_000,
                0 <= height as int <= 1_000_000,
        ;
        assert(width as int * height as int >= 0) by (nonlinear_arith)
            requires
                0 <= width as int,
                0 <= height as int,
        ;
    }
    let area = width * height;
    let scaled = (area * DENSITY_NUM) / DENSITY_DEN;
    if scaled >= MAX_BOIDS as u64 {
        MAX_BOIDS
    } else {
        scaled as u32
    }
}

/// The active count never goes down when the viewport area grows, at a
/// fixed density.
pub proof fn lemma_boid_count_monotone(w1: int, h1: int, w2: int, h2: int)
    requires
        0 <= w1 * h1,
        w1 * h1 <= w2 * h2,
    ensures
        boid_count_spec(w1, h1) <= boid_count_spec(w2, h2),
{
    let a1 = w1 * h1;
    let a2 = w2 * h2;
    assert(a1 * DENSITY_NUM <= a2 * DENSITY_NUM);
    vstd::arithmetic::div_mod::lemma_div_is_ordered(
        a1 * DENSITY_NUM,
        a2 * DENSITY_NUM,
        DENSITY_DEN as int,
    );
}

/// The active count always lies between zero and the fixed capacity.
pub proof fn lemma_boid_count_range(w: int, h: int)
    requires
        0 <= w * h,
    ensures
        0 <= boid_count_spec(w, h) <= MAX_BOIDS as int,
{
    vstd::arithmetic::div_mod::lemma_div_pos_is_pos(w * h * DENSITY_NUM, DENSITY_DEN as int);
}

/// The agent's unit heading; an exactly zero velocity (which the force
/// model can produce, though the wall force makes it fleeting) is drawn
/// as if heading right, instead of dividing by zero.
pub open spec fn heading_model(v: V2) -> V2 {
    if v.x == 0 && v.y == 0 {
        V2 { x: SCALE as int, y: 0 }
    } else {
        V2 { x: fx_div_spec(v.x, mag_spec(v)), y: fx_div_spec(v.y, mag_spec(v)) }
    }
}

/// The heading rotated by 90 degrees.
pub open spec fn ortho_model(u: V2) -> V2 {
    V2 { x: -u.y, y: u.x }
}

/// Pixel-space nose of an agent's triangle.
pub open spec fn front_corner(b: BoidModel) -> V2 {
    let u = heading_model(b.vel);
    V2 {
        x: b.pos.x + fx_mul_spec(FRONT_OFFSET_FX as int, u.x),
        y: b.pos.y + fx_mul_spec(FRONT_OFFSET_FX as int, u.y),
    }
}

/// Pixel-space right base corner of an agent's triangle.
pub open spec fn right_corner(b: BoidModel) -> V2 {
    let u = heading_model(b.vel);
    let o = ortho_model(u);
    V2 {
        x: b.pos.x - fx_mul_spec(BACK_OFFSET_FX as int, u.x) - fx_mul_spec(
            SIDE_OFFSET_FX as int,
            o.x,
        ),
        y: b.pos.y - fx_mul_spec(BACK_OFFSET_FX as int, u.y) - fx_mul_spec(
            SIDE_OFFSET_FX as int,
            o.y,
        ),
    }
}

/// Pixel-space left base corner of an agent's triangle.
pub open spec fn left_corner(b: BoidModel) -> V2 {
    let u = heading_model(b.vel);
    let o = ortho_model(u);
    V2 {
        x: b.pos.x - fx_mul_spec(BACK_OFFSET_FX as int, u.x) + fx_mul_spec(
            SIDE_OFFSET_FX as int,
            o.x,
        ),
        y: b.pos.y - fx_mul_spec(BACK_OFFSET_FX as int, u.y) + fx_mul_spec(
            SIDE_OFFSET_FX as int,
            o.y,
        ),
    }
}

/// The nose vertex in clip space.
pub open spec fn front_vertex(b: BoidModel, w: int, h: int) -> V2 {
    map_spec(front_corner(b), w, h)
}

/// The right base vertex in clip space.
pub open spec fn right_vertex(b: BoidModel, w: int, h: int) -> V2 {
    map_spec(right_corner(b), w, h)
}

/// The left base vertex in clip space.
pub open spec fn left_vertex(b: BoidModel, w: int, h: int) -> V2 {
    map_spec(left_corner(b), w, h)
}

/// The clip-space triangle of one agent, as (nose, right, left).
pub fn triangle(b: &Boid, width: u64, height: u64) -> (r: (Vertex, Vertex, Vertex))
    requires
        boid_ok(b@),
        1 <= width <= MAX_DIM,
        1 <= height <= MAX_DIM,
    ensures
        r.0@ == front_vertex(b@, width as int, height as int),
        r.1@ == right_vertex(b@, width as int, height as int),
        r.2@ == left_vertex(b@, width as int, height as int),
{
    let v = b.velocity();
    let heading = if v.x == 0 && v.y == 0 {
        Vector::new(SCALE, 0)
    } else {
        proof {
            assert(mag_sq(v@) >= 1) by (nonlinear_arith)
                requires
                    v@.x != 0 || v@.y != 0,
                    mag_sq(v@) == v@.x * v@.x + v@.y * v@.y,
            ;
            lemma_sqrt_floor(mag_sq(v@) as nat);
        }
        v.normalize()
    };
    proof {
        assert(heading@ == heading_model(b@.vel));
        assert(absi(heading@.x) <= VEL_LIMIT as int * SCALE as int);
        assert(absi(heading@.y) <= VEL_LIMIT as int * SCALE as int);
    }
    let orth = heading.orthogonal();
    let p = b.position();
    let nose = p.plus(heading.scaled(FRONT_OFFSET_FX));
    let back = heading.scaled(BACK_OFFSET_FX);
    let side = orth.scaled(SIDE_OFFSET_FX);
    let base = p.minus(back);
    let right = base.minus(side);
    let left = base.plus(side);
    (nose.map(width, height), right.map(width, height), left.map(width, height))
}

/// Starting coordinate and velocity ranges of a freshly placed agent:
/// inside the viewport, with a nonzero velocity below the start-speed cap.
pub open spec fn fresh_ok(b: BoidModel, w: int, h: int) -> bool {
    &&& 0 <= b.pos.x <= (w - 1) * SCALE
    &&& 0 <= b.pos.y <= (h - 1) * SCALE
    &&& !(b.vel.x == 0 && b.vel.y == 0)
    &&& absi(b.vel.x) <= MAX_START_SPEED_FX as int
    &&& absi(b.vel.y) <= MAX_START_SPEED_FX as int
}

/// The agent population and its derived geometry.  Two equally sized
/// agent buffers alternate roles every step (double buffering), and the
/// vertex buffer holds one triangle per agent slot.
pub struct Flock {
    pub boids: Vec<Boid>,
    pub scratch: Vec<Boid>,
    pub vertices: Vec<Vertex>,
}

impl Flock {
    /// Structural invariant: fixed-capacity buffers, and every stored
    /// agent within the coordinate bounds.
    pub open spec fn wf(self) -> bool {
        &&& self.boids@.len() == MAX_BOIDS as int
        &&& self.scratch@.len() == MAX_BOIDS as int
        &&& self.vertices@.len() == 3 * MAX_BOIDS as int
        &&& all_ok(models(self.boids@))
        &&& all_ok(models(self.scratch@))
    }

    /// A flock of `MAX_BOIDS` randomly placed agents: positions uniform
    /// over the viewport's pixel grid, speeds in the start range, and
    /// headings drawn uniformly from the unit disc.
    pub fn new(width: u64, height: u64) -> (r: Flock)
        requires
            1 <= width <= MAX_DIM,
            1 <= height <= MAX_DIM,
        ensures
            r.wf(),
            forall|i: int|
                0 <= i < MAX_BOIDS as int ==> fresh_ok(
                    #[trigger] r.boids@[i]@,
                    width as int,
                    height as int,
                ),
    {
        let mut rng = fresh_rng();
        let mut boids: Vec<Boid> = Vec::new();
        let mut i: usize = 0;
        while i < MAX_BOIDS as usize
            invariant
                i <= MAX_BOIDS as usize,
                boids@.len() == i as int,
                1 <= width <= MAX_DIM,
                1 <= height <= MAX_DIM,
                forall|j: int|
                    0 <= j < i as int ==> fresh_ok(
                        #[trigger] boids@[j]@,
                        width as int,
                        height as int,
                    ),
                forall|j: int| 0 <= j < i as int ==> boid_ok(#[trigger] boids@[j]@),
            decreases MAX_BOIDS as usize - i,
        {
            let px = sample_below(&mut rng, width);
            let py = sample_below(&mut rng, height);
            let pos = Vector::new((px as i128) * SCALE, (py as i128) * SCALE);
            let spd64 = 10_000u64 + sample_below(&mut rng, 10_000);
            let spd = spd64 as i128;
            let dir = sample_direction(&mut rng);
            let dvec = Vector::new(dir.0, dir.1);
            let dm = dvec.magnitude();
            proof {
                assert(mag_sq(dvec@) >= 1) by (nonlinear_arith)
                    requires
                        dvec@.x != 0 || dvec@.y != 0,
                        mag_sq(dvec@) == dvec@.x * dvec@.x + dvec@.y * dvec@.y,
                ;
                assert((SCALE as int + 1) * (SCALE as int + 1) > SCALE as int * SCALE as int)
                    by (nonlinear_arith)
                    requires
                        SCALE == 10_000i128,
                ;
                lemma_sqrt_floor_le(mag_sq(dvec@) as nat, SCALE as int);
                assert(dvec@.x * dvec@.x <= mag_sq(dvec@) && dvec@.y * dvec@.y <= mag_sq(dvec@))
                    by (nonlinear_arith)
                    requires
                        mag_sq(dvec@) == dvec@.x * dvec@.x + dvec@.y * dvec@.y,
                ;
                lemma_component_le_sqrt(dvec@.x, mag_sq(dvec@) as nat);
                lemma_component_le_sqrt(dvec@.y, mag_sq(dvec@) as nat);
            }
            let vx = mul_ratio(dir.0, spd, dm);
            let vy = mul_ratio(dir.1, spd, dm);
            proof {
                assert(absi(vx as int) * dm <= dm as int * spd as int && absi(vy as int) * dm
                    <= dm as int * spd as int) by (nonlinear_arith)
                    requires
                        absi(vx as int) * dm <= absi(dir.0 as int) * spd,
                        absi(vy as int) * dm <= absi(dir.1 as int) * spd,
                        absi(dir.0 as int) <= dm as int,
                        absi(dir.1 as int) <= dm as int,
                        spd >= 0,
                ;
                assert(absi(vx as int) <= spd as int && absi(vy as int) <= spd as int)
                    by (nonlinear_arith)
                    requires
                        absi(vx as int) * dm <= dm as int * spd as int,
                        absi(vy as int) * dm <= dm as int * spd as int,
                        dm >= 1,
                ;
                if dir.0 != 0 {
                    assert(absi(dir.0 as int * spd as int) == absi(dir.0 as int) * spd as int)
                        by (nonlinear_arith)
                        requires
                            spd >= 0,
                    ;
                    assert(absi(dir.0 as int) * spd as int >= spd as int) by (nonlinear_arith)
                        requires
                            absi(dir.0 as int) >= 1,
                            spd >= 0,
                    ;
                    lemma_tdiv_abs_ge_one(dir.0 as int * spd as int, dm as int);
                } else {
                    assert(absi(dir.1 as int * spd as int) == absi(dir.1 as int) * spd as int)
                        by (nonlinear_arith)
                        requires
                            spd >= 0,
                    ;
                    assert(absi(dir.1 as int) * spd as int >= spd as int) by (nonlinear_arith)
                        requires
                            absi(dir.1 as int) >= 1,
                            spd >= 0,
                    ;
                    lemma_tdiv_abs_ge_one(dir.1 as int * spd as int, dm as int);
                }
            }
            let vel = Vector::new(vx, vy);
            boids.push(Boid::new(pos, vel));
            i = i + 1;
        }
        let scratch = zero_agents();
        let vertices = zero_vertices();
        proof {
            assert(forall|j: int|
                0 <= j < MAX_BOIDS as int ==> models(boids@)[j] == #[trigger] boids@[j]@);
            assert(forall|j: int|
                0 <= j < MAX_BOIDS as int ==> models(scratch@)[j] == #[trigger] scratch@[j]@);
        }
        Flock { boids, scratch, vertices }
    }

    /// A flock with a caller-chosen full set of agents, for deterministic
    /// setups; buffers are laid out exactly as in `new`.
    pub fn from_agents(agents: Vec<Boid>) -> (r: Flock)
        requires
            agents@.len() == MAX_BOIDS as int,
            all_ok(models(agents@)),
        ensures
            r.wf(),
            r.boids@ == agents@,
    {
        let scratch = zero_agents();
        let vertices = zero_vertices();
        proof {
            assert(forall|j: int|
                0 <= j < MAX_BOIDS as int ==> models(scratch@)[j] == #[trigger] scratch@[j]@);
        }
        Flock { boids: agents, scratch, vertices }
    }

    /// The agent currently stored at slot `i`.
    pub fn agent(&self, i: usize) -> (r: Boid)
        requires
            self.wf(),
            i < MAX_BOIDS as usize,
        ensures
            r == self.boids@[i as int],
    {
        self.boids[i]
    }

    /// Advances the whole flock by one step: recomputes the active count
    /// from the viewport, steps every active agent against the frame-start
    /// snapshot into the spare buffer, swaps the buffers, and refreshes
    /// the triangle geometry.  Every new agent state is a function of the
    /// pre-step snapshot alone.
    pub fn step(&mut self, width: u64, height: u64) -> (count: u32)
        requires
            old(self).wf(),
            width <= MAX_DIM,
            height <= MAX_DIM,
        ensures
            final(self).wf(),
            count as int == boid_count_spec(width as int, height as int),
            count <= MAX_BOIDS,
            forall|i: int|
                0 <= i < count as int ==> final(self).boids@[i]@ == step_model(
                    #[trigger] old(self).boids@[i]@,
                    others_models(old(self).boids@, count as int, i),
                    width as int,
                    height as int,
                ),
            forall|i: int|
                count as int <= i < MAX_BOIDS as int ==> final(self).boids@[i] == #[trigger] old(
                    self,
                ).scratch@[i],
            final(self).scratch@ == old(self).boids@,
            forall|i: int|
                0 <= i < count as int ==> #[trigger] final(self).vertices@[3 * i]@ == front_vertex(
                    final(self).boids@[i]@,
                    width as int,
                    height as int,
                ),
            forall|i: int|
                0 <= i < count as int ==> #[trigger] final(self).vertices@[3 * i + 1]@
                    == right_vertex(final(self).boids@[i]@, width as int, height as int),
            forall|i: int|
                0 <= i < count as int ==> #[trigger] final(self).vertices@[3 * i + 2]@
                    == left_vertex(final(self).boids@[i]@, width as int, height as int),
            forall|k: int|
                3 * count as int <= k < 3 * MAX_BOIDS as int ==> final(self).vertices@[k]
                    == #[trigger] old(self).vertices@[k],
    {
        let count = boid_count(width, height);
        let n = count as usize;
        proof {
            if width == 0 || height == 0 {
                assert(width as int * height as int == 0) by (nonlinear_arith)
                    requires
                        width == 0 || height == 0,
                ;
            } else {
                assert(n > 0 ==> width >= 1 && height >= 1);
            }
        }
        let ghost snap = self.boids@;
        let mut i: usize = 0;
        while i < n
            invariant
                i <= n,
                n == count as int,
                n <= MAX_BOIDS as usize,
                width <= MAX_DIM,
                height <= MAX_DIM,
                self.boids@ == snap,
                snap.len() == MAX_BOIDS as int,
                all_ok(models(snap)),
                self.vertices@ == old(self).vertices@,
                old(self).vertices@.len() == 3 * MAX_BOIDS as int,
                old(self).scratch@.len() == MAX_BOIDS as int,
                self.scratch@.len() == MAX_BOIDS as int,
                all_ok(models(self.scratch@)),
                forall|j: int|
                    0 <= j < i as int ==> #[trigger] self.scratch@[j]@ == step_model(
                        snap[j]@,
                        others_models(snap, n as int, j),
                        width as int,
                        height as int,
                    ),
                forall|j: int|
                    i as int <= j < MAX_BOIDS as int ==> self.scratch@[j] == #[trigger] old(
                        self,
                    ).scratch@[j],
            decreases n - i,
        {
            proof {
                crate::boid::lemma_all_ok_prefix(snap, n as int);
            }
            let nb = crate::boid::step_at(&self.boids, i, n, width, height);
            let ghost pre = self.scratch@;
            self.scratch.set(i, nb);
            proof {
                crate::boid::lemma_all_ok_update(pre, i as int, nb);
                assert(self.scratch@ == pre.update(i as int, nb));
            }
            i = i + 1;
        }
        core::mem::swap(&mut self.boids, &mut self.scratch);
        let ghost cur = self.boids@;
        let mut k: usize = 0;
        while k < n
            invariant
                k <= n,
                n == count as int,
                n <= MAX_BOIDS as usize,
                width <= MAX_DIM,
                height <= MAX_DIM,
                n > 0 ==> width >= 1 && height >= 1,
                self.boids@ == cur,
                cur.len() == MAX_BOIDS as int,
                all_ok(models(cur)),
                self.scratch@ == snap,
                self.vertices@.len() == 3 * MAX_BOIDS as int,
                old(self).vertices@.len() == 3 * MAX_BOIDS as int,
                forall|j: int|
                    0 <= j < k as int ==> #[trigger] self.vertices@[3 * j]@ == front_vertex(
                        cur[j]@,
                        width as int,
                        height as int,
                    ),
                forall|j: int|
                    0 <= j < k as int ==> #[trigger] self.vertices@[3 * j + 1]@ == right_vertex(
                        cur[j]@,
                        width as int,
                        height as int,
                    ),
                forall|j: int|
                    0 <= j < k as int ==> #[trigger] self.vertices@[3 * j + 2]@ == left_vertex(
                        cur[j]@,
                        width as int,
                        height as int,
                    ),
                forall|m: int|
                    3 * k as int <= m < 3 * MAX_BOIDS as int ==> self.vertices@[m]
                        == #[trigger] old(self).vertices@[m],
            decreases n - k,
        {
            let bk = self.boids[k];
            proof {
                crate::boid::lemma_models_index(cur);
                assert(boid_ok(bk@));
            }
            let tri = triangle(&bk, width, height);
            self.vertices.set(3 * k, tri.0);
            self.vertices.set(3 * k + 1, tri.1);
            self.vertices.set(3 * k + 2, tri.2);
            k = k + 1;
        }
        count
    }

    /// The first `3 * count` vertices: the triangles of the `count` agents
    /// the most recent `step` reported.  Entries beyond a smaller current
    /// population are stale and not returned.
    pub fn vertices(&self, count: u32) -> (r: Vec<Vertex>)
        requires
            self.wf(),
            count <= MAX_BOIDS,
        ensures
            r@ == self.vertices@.take(3 * count as int),
            r@.len() == 3 * count as int,
    {
        let m = 3 * (count as usize);
        let mut out: Vec<Vertex> = Vec::new();
        let mut k: usize = 0;
        while k < m
            invariant
                k <= m,
                m == 3 * count as int,
                m <= 3 * MAX_BOIDS as int,
                self.vertices@.len() == 3 * MAX_BOIDS as int,
                out@.len() == k as int,
                forall|j: int| 0 <= j < k as int ==> out@[j] == #[trigger] self.vertices@[j],
            decreases m - k,
        {
            let v = self.vertices[k];
            out.push(v);
            k = k + 1;
        }
        proof {
            assert(out@ =~= self.vertices@.take(3 * count as int));
        }
        out
    }
}

/// A direction drawn uniformly from the nonzero part of the fixed-point
/// unit disc, by rejection; after a bounded number of misses (each miss
/// has probability below one in five) it falls back to heading right.
fn sample_direction(rng: &mut rand::rngs::ThreadRng) -> (r: (i128, i128))
    ensures
        r.0 != 0 || r.1 != 0,
        r.0 as int * r.0 as int + r.1 as int * r.1 as int <= SCALE as int * SCALE as int,
        -SCALE <= r.0 <= SCALE,
        -SCALE <= r.1 <= SCALE,
{
    let mut tries: u8 = 0;
    while tries < 32
        invariant
            tries <= 32,
        decreases 32 - tries,
    {
        let ux = sample_below(rng, 20_001);
        let uy = sample_below(rng, 20_001);
        let dx = (ux as i128) - 10_000;
        let dy = (uy as i128) - 10_000;
        proof {
            assert(0 <= dx as int * dx as int <= 100_000_000 && 0 <= dy as int * dy as int
                <= 100_000_000) by (nonlinear_arith)
                requires
                    -10_000 <= dx as int <= 10_000,
                    -10_000 <= dy as int <= 10_000,
            ;
        }
        let q = dx * dx + dy * dy;
        if (dx != 0 || dy != 0) && q <= SCALE * SCALE {
            return (dx, dy);
        }
        tries = tries + 1;
    }
    (SCALE, 0)
}

/// A full buffer of zeroed agents.
fn zero_agents() -> (r: Vec<Boid>)
    ensures
        r@.len() == MAX_BOIDS as int,
        all_ok(models(r@)),
{
    let mut v: Vec<Boid> = Vec::new();
    let mut i: usize = 0;
    while i < MAX_BOIDS as usize
        invariant
            i <= MAX_BOIDS as usize,
            v@.len() == i as int,
            forall|j: int| 0 <= j < i as int ==> boid_ok(#[trigger] v@[j]@),
        decreases MAX_BOIDS as usize - i,
    {
        v.push(Boid::zero());
        i = i + 1;
    }
    proof {
        assert(forall|j: int|
            0 <= j < MAX_BOIDS as int ==> models(v@)[j] == #[trigger] v@[j]@);
    }
    v
}

/// A full buffer of zeroed vertices.
fn zero_vertices() -> (r: Vec<Vertex>)
    ensures
        r@.len() == 3 * MAX_BOIDS as int,
{
    let mut v: Vec<Vertex> = Vec::new();
    let mut i: usize = 0;
    while i < 3 * (MAX_BOIDS as usize)
        invariant
            i <= 3 * MAX_BOIDS as int,
            v@.len() == i as int,
        decreases 3 * (MAX_BOIDS as usize) - i,
    {
        v.push(Vertex { x: 0, y: 0 });
        i = i + 1;
    }
    v
}

} // verus!

