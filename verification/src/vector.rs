//! 2D fixed-point vectors and their clip-space projection.

use vstd::prelude::*;
use crate::fx::{
    absi, fx_div, fx_div_spec, fx_mul, fx_mul_spec, isqrt, lemma_sqrt_floor, sqrt_floor, t_div,
    tdiv, FX_LIM, SCALE,
};

verus! {

/// Mathematical model of a 2D vector: a pair of unbounded integers
/// (raw fixed-point coordinates).
pub ghost struct V2 {
    pub x: int,
    pub y: int,
}

/// A 2D vector in fixed-point representation: each coordinate stores
/// `value * SCALE`.
#[derive(Clone, Copy, Debug, PartialEq, Eq, Structural)]
pub struct Vector {
    pub x: i128,
    pub y: i128,
}

/// A clip-space vertex, in the same fixed-point representation.
#[derive(Clone, Copy, Debug, PartialEq, Eq, Structural)]
pub struct Vertex {
    pub x: i128,
    pub y: i128,
}

impl View for Vector {
    type V = V2;

    open spec fn view(&self) -> V2 {
        V2 { x: self.x as int, y: self.y as int }
    }
}

impl View for Vertex {
    type V = V2;

    open spec fn view(&self) -> V2 {
        V2 { x: self.x as int, y: self.y as int }
    }
}

/// Sum of the squared coordinates.
pub open spec fn mag_sq(v: V2) -> int {
    v.x * v.x + v.y * v.y
}

/// Fixed-point magnitude: the floor of the Euclidean norm of the raw
/// coordinates.
pub open spec fn mag_spec(v: V2) -> int {
    sqrt_floor(mag_sq(v) as nat) as int
}

/// Both coordinates have magnitude at most `lim`.
pub open spec fn in_range(v: V2, lim: int) -> bool {
    -lim <= v.x <= lim && -lim <= v.y <= lim
}

/// Clip-space projection of a raw fixed-point position: maps pixel
/// coordinate `x` in `[0, width]` to `2*x/width - 1`, and flips the
/// vertical axis (`1 - 2*y/height`).
pub open spec fn map_spec(p: V2, width: int, height: int) -> V2 {
    V2 { x: tdiv(2 * p.x, width) - SCALE, y: SCALE - tdiv(2 * p.y, height) }
}

impl Vector {
    /// The zero vector.
    pub fn zero() -> (r: Vector)
        ensures
            r@ == (V2 { x: 0, y: 0 }),
    {
        Vector { x: 0, y: 0 }
    }

    /// A vector from raw fixed-point coordinates.
    pub fn new(x: i128, y: i128) -> (r: Vector)
        ensures
            r@ == (V2 { x: x as int, y: y as int }),
    {
        Vector { x, y }
    }

    /// Componentwise sum.
    pub fn plus(self, o: Vector) -> (r: Vector)
        requires
            in_range(self@, FX_LIM as int),
            in_range(o@, FX_LIM as int),
        ensures
            r@ == (V2 { x: self@.x + o@.x, y: self@.y + o@.y }),
    {
        Vector { x: self.x + o.x, y: self.y + o.y }
    }

    /// Componentwise difference.
    pub fn minus(self, o: Vector) -> (r: Vector)
        requires
            in_range(self@, FX_LIM as int),
            in_range(o@, FX_LIM as int),
        ensures
            r@ == (V2 { x: self@.x - o@.x, y: self@.y - o@.y }),
    {
        Vector { x: self.x - o.x, y: self.y - o.y }
    }

    /// The vector scaled by the fixed-point factor `f`.
    pub fn scaled(self, f: i128) -> (r: Vector)
        requires
            in_range(self@, FX_LIM as int),
            -FX_LIM <= f <= FX_LIM,
        ensures
            r@ == (V2 { x: fx_mul_spec(f as int, self@.x), y: fx_mul_spec(f as int, self@.y) }),
            absi(r@.x) <= absi(f as int) * absi(self@.x),
            absi(r@.y) <= absi(f as int) * absi(self@.y),
    {
        Vector { x: fx_mul(f, self.x), y: fx_mul(f, self.y) }
    }

    /// Fixed-point magnitude (floor of the Euclidean norm).
    pub fn magnitude(self) -> (r: i128)
        requires
            in_range(self@, FX_LIM as int),
        ensures
            r as int == mag_spec(self@),
            0 <= r,
            r as int * r as int <= mag_sq(self@),
            mag_sq(self@) < (r as int + 1) * (r as int + 1),
    {
        proof {
            assert(0 <= self.x * self.x <= FX_LIM * FX_LIM) by (nonlinear_arith)
                requires
                    -FX_LIM <= self.x <= FX_LIM,
            ;
            assert(0 <= self.y * self.y <= FX_LIM * FX_LIM) by (nonlinear_arith)
                requires
                    -FX_LIM <= self.y <= FX_LIM,
            ;
        }
        let q: i128 = self.x * self.x + self.y * self.y;
        let s = isqrt(q as u128);
        s as i128
    }

    /// The unit vector with this vector's heading.  The magnitude must be
    /// nonzero.
    pub fn normalize(self) -> (r: Vector)
        requires
            in_range(self@, FX_LIM as int),
            1 <= mag_spec(self@),
        ensures
            r@ == (V2 {
                x: fx_div_spec(self@.x, mag_spec(self@)),
                y: fx_div_spec(self@.y, mag_spec(self@)),
            }),
            absi(r@.x) <= absi(self@.x) * SCALE,
            absi(r@.y) <= absi(self@.y) * SCALE,
    {
        let m = self.magnitude();
        Vector { x: fx_div(self.x, m), y: fx_div(self.y, m) }
    }

    /// The vector rotated by 90 degrees.
    pub fn orthogonal(self) -> (r: Vector)
        requires
            in_range(self@, FX_LIM as int),
        ensures
            r@ == (V2 { x: -self@.y, y: self@.x }),
    {
        Vector { x: -self.y, y: self.x }
    }

    /// Projects a position in viewport pixel coordinates into clip space.
    pub fn map(self, width: u64, height: u64) -> (r: Vertex)
        requires
            in_range(self@, (FX_LIM / 2) as int),
            1 <= width,
            1 <= height,
        ensures
            r@ == map_spec(self@, width as int, height as int),
    {
        let cx = t_div(2 * self.x, width as i128);
        let cy = t_div(2 * self.y, height as i128);
        Vertex { x: cx - SCALE, y: SCALE - cy }
    }
}

} // verus!
