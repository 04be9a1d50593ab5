//! Fixed-point scalar arithmetic.
//!
//! A simulation quantity `v` is stored as the integer `v * SCALE`, and all
//! products and quotients truncate toward zero, mirroring the rounding a
//! hardware divide would perform on the scaled integers.

use vstd::prelude::*;

verus! {

/// Number of raw integer steps per simulation unit: a quantity `v` is stored
/// as the integer `v * SCALE`.
pub const SCALE: i128 = 10_000;

/// Largest magnitude the scalar helpers accept.  Every quantity the
/// simulation stores or derives stays far below this bound.
pub const FX_LIM: i128 = 0x1000_0000_0000_0000;

/// Absolute value of a mathematical integer.
pub open spec fn absi(a: int) -> int {
    if a >= 0 {
        a
    } else {
        -a
    }
}

/// Division truncating toward zero, for positive divisors; this is the
/// quotient the executable `/` operator computes on signed integers.
pub open spec fn tdiv(a: int, b: int) -> int {
    if a >= 0 {
        a / b
    } else {
        -((-a) / b)
    }
}

/// Fixed-point product: `(a * b) / SCALE`, truncated toward zero.
pub open spec fn fx_mul_spec(a: int, b: int) -> int {
    tdiv(a * b, SCALE as int)
}

/// Fixed-point quotient: `(a * SCALE) / b`, truncated toward zero.
pub open spec fn fx_div_spec(a: int, b: int) -> int {
    tdiv(a * SCALE, b)
}

/// Largest integer whose square does not exceed `n`.
pub open spec fn sqrt_floor(n: nat) -> nat
    decreases n,
{
    if n == 0 {
        0
    } else {
        let p = sqrt_floor((n - 1) as nat);
        if (p + 1) * (p + 1) <= n {
            p + 1
        } else {
            p
        }
    }
}

/// The truncated quotient keeps the dividend's sign and shrinks it:
/// `|a / b| * b <= |a|`, hence `|a / b| <= |a|`.
pub proof fn lemma_tdiv(a: int, b: int)
    requires
        1 <= b,
    ensures
        absi(tdiv(a, b)) * b <= absi(a),
        absi(tdiv(a, b)) <= absi(a),
        a >= 0 ==> 0 <= tdiv(a, b),
        a <= 0 ==> tdiv(a, b) <= 0,
{
    let m = absi(a);
    let q = m / b;
    vstd::arithmetic::div_mod::lemma_fundamental_div_mod(m, b);
    vstd::arithmetic::div_mod::lemma_mod_division_less_than_divisor(m, b);
    vstd::arithmetic::div_mod::lemma_div_pos_is_pos(m, b);
    assert(b * q <= m);
    assert(q <= q * b) by (nonlinear_arith)
        requires
            q >= 0,
            b >= 1,
    ;
    assert(q * b == b * q) by (nonlinear_arith);
    if a >= 0 {
        assert(tdiv(a, b) == q);
    } else {
        assert(tdiv(a, b) == -q);
    }
}

/// If `|a| <= b * l` then the truncated quotient `a / b` has magnitude at
/// most `l`.
pub proof fn lemma_tdiv_le(a: int, b: int, l: int)
    requires
        1 <= b,
        0 <= l,
        absi(a) <= b * l,
    ensures
        absi(tdiv(a, b)) <= l,
{
    lemma_tdiv(a, b);
    let q = absi(tdiv(a, b));
    assert(q * b <= b * l);
    assert(q <= l) by (nonlinear_arith)
        requires
            q * b <= b * l,
            b >= 1,
            q >= 0,
    ;
}

/// A quotient of a dividend at least as large as the (positive) divisor is
/// at least one.
pub proof fn lemma_tdiv_ge_one(a: int, b: int)
    requires
        1 <= b <= a,
    ensures
        1 <= tdiv(a, b),
{
    let q = a / b;
    vstd::arithmetic::div_mod::lemma_fundamental_div_mod(a, b);
    vstd::arithmetic::div_mod::lemma_mod_division_less_than_divisor(a, b);
    assert(b * q == a - a % b);
    assert(b * q > 0);
    assert(q >= 1) by (nonlinear_arith)
        requires
            b * q > 0,
            b >= 1,
    ;
}

/// `sqrt_floor(n)` is indeed the floor of the square root of `n`.
pub proof fn lemma_sqrt_floor(n: nat)
    ensures
        sqrt_floor(n) * sqrt_floor(n) <= n,
        n < (sqrt_floor(n) + 1) * (sqrt_floor(n) + 1),
    decreases n,
{
    if n == 0 {
        assert(sqrt_floor(0) == 0);
        let s = sqrt_floor(n);
        assert(n < (s + 1) * (s + 1)) by (nonlinear_arith)
            requires
                n == 0,
                s == 0,
        ;
    } else {
        let m = (n - 1) as nat;
        lemma_sqrt_floor(m);
        let p = sqrt_floor(m);
        assert(p * p <= m);
        assert(m < (p + 1) * (p + 1));
        if (p + 1) * (p + 1) <= n {
            assert(sqrt_floor(n) == p + 1);
            assert(n <= (p + 1) * (p + 1));
            let s = sqrt_floor(n);
            assert(n < (s + 1) * (s + 1)) by (nonlinear_arith)
                requires
                    s == p + 1,
                    n <= (p + 1) * (p + 1),
            ;
        } else {
            assert(sqrt_floor(n) == p);
            assert(n < (p + 1) * (p + 1));
        }
    }
}

/// Any `r` with `r^2 <= n < (r+1)^2` equals `sqrt_floor(n)`.
pub proof fn lemma_sqrt_floor_unique(n: nat, r: int)
    requires
        0 <= r,
        r * r <= n,
        n < (r + 1) * (r + 1),
    ensures
        sqrt_floor(n) == r,
{
    let s = sqrt_floor(n) as int;
    lemma_sqrt_floor(n);
    assert(!(s < r)) by (nonlinear_arith)
        requires
            0 <= s,
            0 <= r,
            r * r <= n,
            n < (s + 1) * (s + 1),
    ;
    assert(!(s > r)) by (nonlinear_arith)
        requires
            0 <= s,
            0 <= r,
            s * s <= n,
            n < (r + 1) * (r + 1),
    ;
}

/// If `n < (r+1)^2` then the floor square root of `n` is at most `r`.
pub proof fn lemma_sqrt_floor_le(n: nat, r: int)
    requires
        0 <= r,
        n < (r + 1) * (r + 1),
    ensures
        sqrt_floor(n) <= r,
{
    let s = sqrt_floor(n) as int;
    lemma_sqrt_floor(n);
    assert(!(s > r)) by (nonlinear_arith)
        requires
            0 <= s,
            0 <= r,
            s * s <= n,
            n < (r + 1) * (r + 1),
    ;
}

/// A component of a sum of squares is bounded by the floor square root of
/// the sum: `x^2 <= q` implies `|x| <= sqrt_floor(q)`.
pub proof fn lemma_component_le_sqrt(x: int, q: nat)
    requires
        x * x <= q,
    ensures
        absi(x) <= sqrt_floor(q),
{
    let m = sqrt_floor(q) as int;
    lemma_sqrt_floor(q);
    assert(absi(x) <= m) by (nonlinear_arith)
        requires
            x * x <= q,
            0 <= m,
            q < (m + 1) * (m + 1),
    ;
}

/// A quotient whose dividend is at least the (positive) divisor in
/// magnitude is nonzero.
pub proof fn lemma_tdiv_abs_ge_one(a: int, b: int)
    requires
        1 <= b,
        b <= absi(a),
    ensures
        1 <= absi(tdiv(a, b)),
{
    if a >= 0 {
        lemma_tdiv_ge_one(a, b);
    } else {
        lemma_tdiv_ge_one(-a, b);
    }
}

/// Rescaling a vector by the ratio `c / m`, where `m` is its own floor
/// magnitude and exceeds `c`, yields a vector whose squared magnitude stays
/// below `(c + 1)^2`, so its floor magnitude is at most `c`.
pub proof fn lemma_rescale_bound(x: int, y: int, m: int, c: int)
    requires
        1 <= c,
        c < m,
        m == sqrt_floor((x * x + y * y) as nat),
    ensures
        absi(tdiv(x * c, m)) <= c,
        absi(tdiv(y * c, m)) <= c,
        ({
            let x2 = tdiv(x * c, m);
            let y2 = tdiv(y * c, m);
            x2 * x2 + y2 * y2 < (c + 1) * (c + 1)
        }),
{
    let q = x * x + y * y;
    assert(q >= 0) by (nonlinear_arith)
        requires
            q == x * x + y * y,
    ;
    lemma_sqrt_floor(q as nat);
    let x2 = tdiv(x * c, m);
    let y2 = tdiv(y * c, m);
    lemma_tdiv(x * c, m);
    lemma_tdiv(y * c, m);
    assert(x * x <= q && y * y <= q) by (nonlinear_arith)
        requires
            q == x * x + y * y,
    ;
    lemma_component_le_sqrt(x, q as nat);
    lemma_component_le_sqrt(y, q as nat);
    let ax = absi(x);
    let ay = absi(y);
    let ax2 = absi(x2);
    let ay2 = absi(y2);
    assert(absi(x * c) == ax * c) by (nonlinear_arith)
        requires
            c >= 1,
            ax == absi(x),
            x >= 0 ==> ax == x,
            x < 0 ==> ax == -x,
    ;
    assert(absi(y * c) == ay * c) by (nonlinear_arith)
        requires
            c >= 1,
            ay == absi(y),
            y >= 0 ==> ay == y,
            y < 0 ==> ay == -y,
    ;
    assert(ax2 <= c) by (nonlinear_arith)
        requires
            ax2 * m <= ax * c,
            ax <= m,
            m >= 1,
            c >= 1,
            ax2 >= 0,
            ax >= 0,
    ;
    assert(ay2 <= c) by (nonlinear_arith)
        requires
            ay2 * m <= ay * c,
            ay <= m,
            m >= 1,
            c >= 1,
            ay2 >= 0,
            ay >= 0,
    ;
    assert(x2 * x2 * (m * m) <= (ax * c) * (ax * c)) by (nonlinear_arith)
        requires
            ax2 * m <= ax * c,
            0 <= ax2,
            0 <= ax,
            0 <= m,
            0 <= c,
            -ax2 <= x2 <= ax2,
    ;
    assert(y2 * y2 * (m * m) <= (ay * c) * (ay * c)) by (nonlinear_arith)
        requires
            ay2 * m <= ay * c,
            0 <= ay2,
            0 <= ay,
            0 <= m,
            0 <= c,
            -ay2 <= y2 <= ay2,
    ;
    assert((ax * c) * (ax * c) == (x * x) * (c * c)) by (nonlinear_arith)
        requires
            ax == x || ax == -x,
    ;
    assert((ay * c) * (ay * c) == (y * y) * (c * c)) by (nonlinear_arith)
        requires
            ay == y || ay == -y,
    ;
    assert((x2 * x2 + y2 * y2) * (m * m) <= q * (c * c)) by (nonlinear_arith)
        requires
            x2 * x2 * (m * m) <= (x * x) * (c * c),
            y2 * y2 * (m * m) <= (y * y) * (c * c),
            q == x * x + y * y,
    ;
    assert(q <= m * m + 2 * m) by (nonlinear_arith)
        requires
            q < (m + 1) * (m + 1),
    ;
    assert(q * (c * c) <= (m * m + 2 * m) * (c * c)) by (nonlinear_arith)
        requires
            q <= m * m + 2 * m,
            c >= 1,
    ;
    assert((m * m + 2 * m) * (c * c) < (c * c + 2 * c + 1) * (m * m)) by (nonlinear_arith)
        requires
            1 <= c,
            c < m,
    ;
    assert(x2 * x2 + y2 * y2 < c * c + 2 * c + 1) by (nonlinear_arith)
        requires
            (x2 * x2 + y2 * y2) * (m * m) < (c * c + 2 * c + 1) * (m * m),
            m >= 1,
    ;
    assert((c + 1) * (c + 1) == c * c + 2 * c + 1) by (nonlinear_arith);
}

/// Truncating division of signed integers; the divisor must be positive.
pub fn t_div(a: i128, b: i128) -> (r: i128)
    requires
        1 <= b,
    ensures
        r as int == tdiv(a as int, b as int),
        absi(r as int) <= absi(a as int),
{
    proof {
        lemma_tdiv(a as int, b as int);
    }
    a / b
}

/// Fixed-point product `(a * b) / SCALE`.
pub fn fx_mul(a: i128, b: i128) -> (r: i128)
    requires
        -FX_LIM <= a <= FX_LIM,
        -FX_LIM <= b <= FX_LIM,
    ensures
        r as int == fx_mul_spec(a as int, b as int),
        absi(r as int) <= absi(a as int) * absi(b as int),
{
    proof {
        assert(-FX_LIM * FX_LIM <= a * b <= FX_LIM * FX_LIM) by (nonlinear_arith)
            requires
                -FX_LIM <= a <= FX_LIM,
                -FX_LIM <= b <= FX_LIM,
        ;
        assert(absi(a as int * b as int) == absi(a as int) * absi(b as int)) by (nonlinear_arith);
    }
    t_div(a * b, SCALE)
}

/// Fixed-point quotient `(a * SCALE) / b`; the divisor must be positive.
pub fn fx_div(a: i128, b: i128) -> (r: i128)
    requires
        -FX_LIM <= a <= FX_LIM,
        1 <= b,
    ensures
        r as int == fx_div_spec(a as int, b as int),
        absi(r as int) <= absi(a as int) * SCALE,
{
    proof {
        assert(-FX_LIM * SCALE <= a * SCALE <= FX_LIM * SCALE) by (nonlinear_arith)
            requires
                -FX_LIM <= a <= FX_LIM,
        ;
        assert(absi(a as int * SCALE as int) == absi(a as int) * SCALE) by (nonlinear_arith);
    }
    t_div(a * SCALE, b)
}

/// `(a * num) / den`, truncated toward zero: scales `a` by the dimensionless
/// ratio `num / den`.
pub fn mul_ratio(a: i128, num: i128, den: i128) -> (r: i128)
    requires
        -FX_LIM <= a <= FX_LIM,
        0 <= num <= FX_LIM,
        1 <= den,
    ensures
        r as int == tdiv(a as int * num as int, den as int),
        absi(r as int) * den <= absi(a as int) * num,
{
    proof {
        assert(-FX_LIM * FX_LIM <= a * num <= FX_LIM * FX_LIM) by (nonlinear_arith)
            requires
                -FX_LIM <= a <= FX_LIM,
                0 <= num <= FX_LIM,
        ;
        lemma_tdiv(a as int * num as int, den as int);
        assert(absi(a as int * num as int) == absi(a as int) * num) by (nonlinear_arith)
            requires
                num >= 0,
        ;
    }
    t_div(a * num, den)
}

/// Floor of the square root, by binary search on the scaled integers.
pub fn isqrt(n: u128) -> (r: u128)
    requires
        (n as int) < 0x4000000000000000000000000000000,
    ensures
        r as int == sqrt_floor(n as nat),
        r as int * r as int <= n as int,
        (n as int) < (r as int + 1) * (r as int + 1),
        r <= 0x2000_0000_0000_0000,
{
    let mut lo: u128 = 0;
    let mut hi: u128 = 0x2000_0000_0000_0000;
    proof {
        assert((hi as int) * (hi as int) == 0x4000000000000000000000000000000) by (nonlinear_arith)
            requires
                hi == 0x2000_0000_0000_0000u128,
        ;
    }
    while hi - lo > 1
        invariant
            lo < hi,
            hi <= 0x2000_0000_0000_0000,
            lo as int * lo as int <= n as int,
            (n as int) < (hi as int) * (hi as int),
        decreases hi - lo,
    {
        let mid = lo + (hi - lo) / 2;
        proof {
            assert(mid * mid < 0x8000000000000000000000000000000u128) by (nonlinear_arith)
                requires
                    mid <= 0x2000_0000_0000_0000u128,
            ;
        }
        if mid * mid <= n {
            lo = mid;
        } else {
            hi = mid;
        }
    }
    proof {
        lemma_sqrt_floor_unique(n as nat, lo as int);
    }
    lo
}

} // verus!
