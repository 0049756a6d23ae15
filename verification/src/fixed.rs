//! Fixed-point scalar arithmetic.
//!
//! A scalar is an `i64` holding its real value times [`SCALE`]: the real
//! number `0.5` is stored as `500`. Products and quotients are rescaled
//! with truncation toward zero, mirrored exactly by the spec functions
//! [`tdiv`], [`fxm`] and [`fxd`], so that every executable computation in
//! the crate has a spec-level twin it is proved equal to.

use vstd::prelude::*;
use vstd::arithmetic::div_mod::*;

verus! {

/// Number of fixed-point units per whole unit: `SCALE` stands for the real 1.0.
pub const SCALE: i64 = 1000;

/// Largest coordinate magnitude the geometry accepts (two million whole units).
/// Keeping inputs inside this window lets every intermediate product of the
/// intersection arithmetic fit in an `i128` without checks.
pub const WORLD_MAX: i64 = 2_000_000_000;

/// Largest ray-parameter upper bound the intersection routines accept.
pub const T_CAP: i64 = 4_000_000_000_000;

/// Minimum ray parameter used by the integrator (the real 0.001), rejecting
/// self-intersection of recursively spawned rays.
pub const T_EPS: i64 = 1;

/// Magnitude cap on the components of a stored surface normal; a hit whose
/// normal falls outside is treated as no hit (a documented numeric policy).
pub const NORMAL_MAX: i64 = 4 * SCALE;

/// Magnitude cap on the components of a sampled unit vector handed to the
/// scattering routines.
pub const UNIT_MAX: i64 = 2 * SCALE;

/// Lower edge of the squared-length band guaranteed of every sampled
/// unit vector: no outcome is shorter than this, so none is anywhere
/// near the zero vector.
pub const UNIT_SQ_MIN: i64 = 900;

/// Upper edge of the squared-length band guaranteed of every sampled
/// unit vector.
pub const UNIT_SQ_MAX: i64 = 1100;

/// Truncating (round-toward-zero) division, the semantics of hardware
/// integer division; `q` is meant to be positive.
pub open spec fn tdiv(p: int, q: int) -> int {
    if p >= 0 {
        p / q
    } else {
        -((-p) / q)
    }
}

/// Fixed-point product: the full integer product rescaled back down.
pub open spec fn fxm(a: int, b: int) -> int {
    tdiv(a * b, SCALE as int)
}

/// Fixed-point quotient: the dividend scaled up, then divided.
pub open spec fn fxd(a: int, b: int) -> int {
    tdiv(a * (SCALE as int), b)
}

/// The integer square root, characterised recursively.
pub open spec fn sqrt_floor(n: nat) -> nat
    decreases n,
{
    if n == 0 {
        0
    } else {
        let r = sqrt_floor((n - 1) as nat);
        if (r + 1) * (r + 1) <= n {
            r + 1
        } else {
            r
        }
    }
}

/// `sqrt_floor(n)` really is the floor of the square root.
pub proof fn lemma_sqrt_floor_bounds(n: nat)
    ensures
        sqrt_floor(n) * sqrt_floor(n) <= n,
        n < (sqrt_floor(n) + 1) * (sqrt_floor(n) + 1),
    decreases n,
{
    if n > 0 {
        lemma_sqrt_floor_bounds((n - 1) as nat);
        let r = sqrt_floor((n - 1) as nat);
        if (r + 1) * (r + 1) <= n {
            assert(sqrt_floor(n) == r + 1);
            assert(n <= (r + 1) * (r + 1));
            assert(n < (r + 1 + 1) * (r + 1 + 1)) by (nonlinear_arith)
                requires
                    n <= (r + 1) * (r + 1),
            ;
        } else {
            assert(sqrt_floor(n) == r);
            assert(r * r <= n - 1);
        }
    } else {
        assert(sqrt_floor(0nat) == 0);
        assert((0nat + 1) * (0nat + 1) == 1) by (nonlinear_arith);
    }
}

/// Any value with the floor-square-root property equals `sqrt_floor(n)`.
pub proof fn lemma_sqrt_floor_unique(n: nat, r: nat)
    requires
        r * r <= n,
        n < (r + 1) * (r + 1),
    ensures
        r == sqrt_floor(n),
{
    lemma_sqrt_floor_bounds(n);
    let s = sqrt_floor(n);
    assert(r == s) by (nonlinear_arith)
        requires
            r * r <= n,
            n < (r + 1) * (r + 1),
            s * s <= n,
            n < (s + 1) * (s + 1),
    ;
}

/// Truncating division of a nonnegative dividend is nonnegative, and of a
/// nonpositive dividend nonpositive.
pub proof fn lemma_tdiv_sign(p: int, q: int)
    requires
        q >= 1,
    ensures
        p >= 0 ==> tdiv(p, q) >= 0,
        p <= 0 ==> tdiv(p, q) <= 0,
{
    if p >= 0 {
        lemma_div_pos_is_pos(p, q);
    } else {
        lemma_div_pos_is_pos(-p, q);
    }
}

/// Truncating division shrinks the magnitude below any bound on the dividend.
pub proof fn lemma_tdiv_abs(p: int, q: int, m: int)
    requires
        q >= 1,
        -m <= p <= m,
    ensures
        -(m / q) <= tdiv(p, q) <= m / q,
        -m <= tdiv(p, q) <= m,
{
    if p >= 0 {
        lemma_div_pos_is_pos(p, q);
        lemma_div_is_ordered(p, m, q);
        lemma_div_nonincreasing(m, q);
        lemma_div_pos_is_pos(m, q);
    } else {
        lemma_div_pos_is_pos(-p, q);
        lemma_div_is_ordered(-p, m, q);
        lemma_div_nonincreasing(m, q);
        lemma_div_pos_is_pos(m, q);
    }
}

/// Truncating division is odd in the dividend.
pub proof fn lemma_tdiv_neg(p: int, q: int)
    requires
        q >= 1,
    ensures
        tdiv(-p, q) == -tdiv(p, q),
{
    if p == 0 {
        lemma_div_of0(q);
    }
}

/// Truncating division is monotone in the dividend.
pub proof fn lemma_tdiv_ordered(p1: int, p2: int, q: int)
    requires
        q >= 1,
        p1 <= p2,
    ensures
        tdiv(p1, q) <= tdiv(p2, q),
{
    if p1 >= 0 {
        lemma_div_is_ordered(p1, p2, q);
    } else if p2 < 0 {
        lemma_div_is_ordered(-p2, -p1, q);
    } else {
        lemma_div_pos_is_pos(-p1, q);
        lemma_div_pos_is_pos(p2, q);
    }
}

/// Truncating division recovers the dividend to within one divisor:
/// `q * tdiv(p, q)` lies strictly between `p - q` and `p + q`.
pub proof fn lemma_tdiv_mul_range(p: int, q: int)
    requires
        q >= 1,
    ensures
        p - q < q * tdiv(p, q),
        q * tdiv(p, q) < p + q,
{
    if p >= 0 {
        lemma_fundamental_div_mod(p, q);
        lemma_mod_division_less_than_divisor(p, q);
        assert(q * tdiv(p, q) == p - p % q);
    } else {
        lemma_fundamental_div_mod(-p, q);
        lemma_mod_division_less_than_divisor(-p, q);
        assert(q * ((-p) / q) == -p - (-p) % q);
        assert(q * tdiv(p, q) == -(q * ((-p) / q))) by (nonlinear_arith)
            requires
                tdiv(p, q) == -((-p) / q),
        ;
    }
}

/// The fixed-point product is odd in each argument.
pub proof fn lemma_fxm_neg(a: int, b: int)
    ensures
        fxm(a, -b) == -fxm(a, b),
        fxm(-a, b) == -fxm(a, b),
{
    lemma_tdiv_neg(a * b, SCALE as int);
    assert(a * (-b) == -(a * b)) by (nonlinear_arith);
    assert((-a) * b == -(a * b)) by (nonlinear_arith);
}

/// A fixed-point quotient keeps the sign of its dividend, so their
/// fixed-point product is nonnegative.
pub proof fn lemma_fxd_sign_product(dc: int, r: int)
    requires
        r >= 1,
    ensures
        fxm(fxd(dc, r), dc) >= 0,
{
    let q = fxd(dc, r);
    if dc >= 0 {
        lemma_tdiv_sign(dc * (SCALE as int), r);
        assert(q * dc >= 0) by (nonlinear_arith)
            requires
                q >= 0,
                dc >= 0,
        ;
        lemma_tdiv_sign(q * dc, SCALE as int);
    } else {
        assert(dc * (SCALE as int) <= 0) by (nonlinear_arith)
            requires
                dc < 0,
        ;
        lemma_tdiv_sign(dc * (SCALE as int), r);
        assert(q * dc >= 0) by (nonlinear_arith)
            requires
                q <= 0,
                dc < 0,
        ;
        lemma_tdiv_sign(q * dc, SCALE as int);
    }
}

/// A fixed-point square is nonnegative.
pub proof fn lemma_fxm_sq_nonneg(a: int)
    ensures
        fxm(a, a) >= 0,
{
    assert(a * a >= 0) by (nonlinear_arith);
    lemma_tdiv_sign(a * a, SCALE as int);
}

/// Exact product of two `i64` values, computed wide.
pub fn wide_mul(a: i64, b: i64) -> (r: i128)
    ensures
        r == a * b,
        -0x4000_0000_0000_0000_0000_0000_0000_0000 <= r
            <= 0x4000_0000_0000_0000_0000_0000_0000_0000,
{
    proof {
        assert(-0x4000_0000_0000_0000_0000_0000_0000_0000
            <= (a as int) * (b as int)
            <= 0x4000_0000_0000_0000_0000_0000_0000_0000) by (nonlinear_arith)
            requires
                -0x8000_0000_0000_0000 <= a as int <= 0x7fff_ffff_ffff_ffff,
                -0x8000_0000_0000_0000 <= b as int <= 0x7fff_ffff_ffff_ffff,
        ;
    }
    (a as i128) * (b as i128)
}

/// Truncating division on wide integers; the divisor must be positive.
pub fn tdiv_i128(p: i128, q: i128) -> (r: i128)
    requires
        q >= 1,
        p > i128::MIN,
    ensures
        r == tdiv(p as int, q as int),
{
    if p >= 0 {
        proof {
            lemma_div_pos_is_pos(p as int, q as int);
            lemma_div_nonincreasing(p as int, q as int);
        }
        ((p as u128) / (q as u128)) as i128
    } else {
        let np: u128 = (-p) as u128;
        proof {
            lemma_div_pos_is_pos(np as int, q as int);
            lemma_div_nonincreasing(np as int, q as int);
        }
        -(((np / (q as u128))) as i128)
    }
}

/// Fixed-point product of two scalars, kept wide; always exact with
/// respect to the spec-level [`fxm`].
pub fn fxmul_wide(a: i64, b: i64) -> (r: i128)
    ensures
        r == fxm(a as int, b as int),
{
    let p: i128 = wide_mul(a, b);
    tdiv_i128(p, SCALE as i128)
}

/// Integer square root by binary search.
pub fn isqrt_u128(n: u128) -> (r: u128)
    requires
        n < 0x4000_0000_0000_0000_0000_0000_0000_0000,
    ensures
        r == sqrt_floor(n as nat),
        r * r <= n,
{
    if n == 0 {
        proof {
            assert((0nat + 1) * (0nat + 1) == 1) by (nonlinear_arith);
            lemma_sqrt_floor_unique(n as nat, 0);
        }
        return 0;
    }
    let mut lo: u128 = 0;
    let mut hi: u128 = 0x8000_0000_0000_0000;
    proof {
        assert((0x8000_0000_0000_0000 as int) * (0x8000_0000_0000_0000 as int)
            == 0x4000_0000_0000_0000_0000_0000_0000_0000) by (nonlinear_arith);
    }
    while lo + 1 < hi
        invariant
            lo < hi,
            hi <= 0x8000_0000_0000_0000,
            lo * lo <= n,
            n < hi * hi,
        decreases hi - lo,
    {
        let mid: u128 = lo + (hi - lo) / 2;
        proof {
            assert(mid * mid <= 0x4000_0000_0000_0000_0000_0000_0000_0000) by (nonlinear_arith)
                requires
                    0 <= mid <= 0x8000_0000_0000_0000,
            ;
        }
        if mid * mid <= n {
            lo = mid;
        } else {
            hi = mid;
        }
    }
    proof {
        lemma_sqrt_floor_unique(n as nat, lo as nat);
    }
    lo
}

} // verus!
