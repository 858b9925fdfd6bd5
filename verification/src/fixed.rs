//! Fixed-point scalars.
//!
//! Every geometric quantity in this crate is an `i64` counting units of
//! `1 / SCALE`. Raw products of two scalars (dot products, determinants,
//! discriminants) are carried in `i128` and only divided back down by
//! `SCALE` at the edges, so intermediate arithmetic is exact.

use vstd::prelude::*;

verus! {

/// Number of fixed-point units in 1.0.
pub const SCALE: i64 = 262144;

/// Self-intersection threshold: hits at distances at or below this many
/// units are discarded, so a bounced ray cannot re-hit the surface it left.
pub const EPSILON: i64 = 1;

/// Coordinate magnitudes of points, box corners and sphere radii stay at or
/// below this bound (2^26 units, i.e. 256.0), which keeps every product the
/// intersection tests form inside `i128`.
pub const COORD_LIMIT: i64 = 0x400_0000;

/// Hits farther than this many units are treated as misses; it comfortably
/// exceeds the diameter of any scene the coordinate bound admits.
pub const DIST_LIMIT: i64 = 0x1_0000_0000;

/// Sentinel coordinate of the empty bounding box; it dominates every legal
/// coordinate, which makes the empty box the identity of box union.
pub const EMPTY_COORD: i64 = 0x1000_0000;

/// The smaller of two integers.
pub open spec fn imin(a: int, b: int) -> int {
    if a <= b { a } else { b }
}

/// The larger of two integers.
pub open spec fn imax(a: int, b: int) -> int {
    if a <= b { b } else { a }
}

/// The magnitude of an integer.
pub open spec fn iabs(x: int) -> int {
    if x >= 0 { x } else { -x }
}

/// Clamp into `[-cap, cap]`.
pub open spec fn iclamp(x: int, cap: int) -> int {
    imax(-cap, imin(cap, x))
}

/// Executable symmetric clamp of a wide intermediate.
pub fn clamp_cap(x: i128, cap: i64) -> (r: i64)
    requires
        cap >= 0,
    ensures
        r == iclamp(x as int, cap as int),
{
    if x > cap as i128 {
        cap
    } else if x < -(cap as i128) {
        -cap
    } else {
        x as i64
    }
}

/// Truncating division (round toward zero), the behaviour of `/` on the
/// machine integers; on a non-negative dividend it agrees with the
/// Euclidean `/` of specifications.
pub open spec fn tdiv(n: int, d: int) -> int {
    if n >= 0 { n / d } else { -((-n) / d) }
}

/// Truncating division of a raw product by a positive divisor.
pub fn div_trunc(n: i128, d: i128) -> (r: i128)
    requires
        d > 0,
        -0x4000_0000_0000_0000_0000_0000_0000_0000i128 < n,
    ensures
        r == tdiv(n as int, d as int),
{
    if n >= 0 { n / d } else { -((-n) / d) }
}

/// `tdiv` never exceeds the dividend's magnitude.
pub proof fn lemma_tdiv_bounds(n: int, d: int)
    requires
        d > 0,
    ensures
        n >= 0 ==> 0 <= tdiv(n, d) <= n,
        n < 0 ==> n <= tdiv(n, d) <= 0,
{
    if n >= 0 {
        vstd::arithmetic::div_mod::lemma_div_nonincreasing(n, d);
        vstd::arithmetic::div_mod::lemma_div_pos_is_pos(n, d);
        vstd::arithmetic::div_mod::lemma_fundamental_div_mod(n, d);
        vstd::arithmetic::div_mod::lemma_mod_bound(n, d);
    } else {
        vstd::arithmetic::div_mod::lemma_div_nonincreasing(-n, d);
        vstd::arithmetic::div_mod::lemma_div_pos_is_pos(-n, d);
    }
}

/// Divide a raw product back down by `SCALE`, truncating toward zero.
pub fn scale_down(n: i128) -> (r: i64)
    requires
        -0x1_ffff_ffff_ffff_fffc_0000i128 <= n <= 0x1_ffff_ffff_ffff_fffc_0000i128,
    ensures
        r == tdiv(n as int, SCALE as int),
        -0x7fff_ffff_ffff_ffff <= r <= 0x7fff_ffff_ffff_ffff,
{
    proof {
        lemma_tdiv_mag(n as int, SCALE as int, 0x7fff_ffff_ffff_ffff);
    }
    div_trunc(n, SCALE as i128) as i64
}

/// A bound on the dividend gives the same bound, shrunk by the divisor, on
/// the truncated quotient.
pub proof fn lemma_tdiv_mag(n: int, d: int, m: int)
    requires
        d > 0,
        m >= 0,
        -(m * d) <= n <= m * d,
    ensures
        -m <= tdiv(n, d) <= m,
{
    if n >= 0 {
        vstd::arithmetic::div_mod::lemma_div_is_ordered(n, m * d, d);
        vstd::arithmetic::div_mod::lemma_div_by_multiple(m, d);
        vstd::arithmetic::div_mod::lemma_div_pos_is_pos(n, d);
    } else {
        vstd::arithmetic::div_mod::lemma_div_is_ordered(-n, m * d, d);
        vstd::arithmetic::div_mod::lemma_div_by_multiple(m, d);
        vstd::arithmetic::div_mod::lemma_div_pos_is_pos(-n, d);
    }
}

/// The integer square root: the largest `r` with `r * r <= n`.
pub open spec fn isqrt_spec(n: int) -> int
    decreases n,
{
    if n <= 0 {
        0
    } else {
        let h = 2 * isqrt_spec(n / 4);
        if (h + 1) * (h + 1) <= n { h + 1 } else { h }
    }
}

pub proof fn lemma_isqrt_bounds(n: int)
    requires
        n >= 0,
    ensures
        isqrt_spec(n) >= 0,
        isqrt_spec(n) * isqrt_spec(n) <= n,
        n < (isqrt_spec(n) + 1) * (isqrt_spec(n) + 1),
    decreases n,
{
    if n > 0 {
        lemma_isqrt_bounds(n / 4);
        let q = isqrt_spec(n / 4);
        let h = 2 * q;
        assert(n == 4 * (n / 4) + n % 4 && 0 <= n % 4 < 4) by {
            vstd::arithmetic::div_mod::lemma_fundamental_div_mod(n, 4);
            vstd::arithmetic::div_mod::lemma_mod_bound(n, 4);
        }
        assert(h * h <= n) by (nonlinear_arith)
            requires
                q * q <= n / 4,
                h == 2 * q,
                n >= 4 * (n / 4),
        ;
        assert(n < (h + 2) * (h + 2)) by (nonlinear_arith)
            requires
                n / 4 < (q + 1) * (q + 1),
                h == 2 * q,
                n < 4 * (n / 4) + 4,
        ;
    }
}

/// Floor square root on the machine, matching `isqrt_spec`.
pub fn isqrt(n: u128) -> (r: u128)
    requires
        n < 0x4000_0000_0000_0000_0000_0000_0000_0000u128,
    ensures
        r == isqrt_spec(n as int),
        r * r <= n,
        n < (r + 1) * (r + 1),
    decreases n,
{
    proof {
        lemma_isqrt_bounds(n as int);
    }
    if n == 0 {
        0
    } else {
        proof {
            vstd::arithmetic::div_mod::lemma_fundamental_div_mod(n as int, 4);
            vstd::arithmetic::div_mod::lemma_mod_bound(n as int, 4);
            lemma_isqrt_bounds(n as int / 4);
            let q = isqrt_spec(n as int / 4);
            assert(q < 0x4000_0000_0000_0000int) by (nonlinear_arith)
                requires
                    q >= 0,
                    q * q <= n as int / 4,
                    n as int / 4 < 0x1000_0000_0000_0000_0000_0000_0000_0000int,
            ;
            assert((2 * q + 1) * (2 * q + 1) < 0x4000_0000_0000_0000_0000_0000_0000_0000int)
                by (nonlinear_arith)
                requires
                    0 <= q < 0x4000_0000_0000_0000int,
            ;
        }
        let h = 2 * isqrt(n / 4);
        if (h + 1) * (h + 1) <= n {
            h + 1
        } else {
            h
        }
    }
}

} // verus!
