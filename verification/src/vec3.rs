//! Three-component fixed-point vectors, used both for points in space and
//! for colours, together with their spec-level model.
//!
//! The executable [`Vec3`] holds `i64` components; its view is [`V3`], a
//! vector of unbounded integers. Each executable operation is proved to
//! return exactly the corresponding spec-level operation on the views.

use vstd::prelude::*;
use vstd::arithmetic::div_mod::*;
use crate::fixed::{SCALE, WORLD_MAX, NORMAL_MAX, UNIT_MAX, fxm, fxd, sqrt_floor};
use crate::fixed::{fxmul_wide, isqrt_u128};
use crate::fixed::{lemma_tdiv_abs, lemma_tdiv_sign, lemma_fxm_sq_nonneg};

verus! {

/// Spec-level vector: three unbounded integer components.
pub ghost struct V3 {
    pub x: int,
    pub y: int,
    pub z: int,
}

/// The zero vector (also the colour black).
pub open spec fn vzero() -> V3 {
    V3 { x: 0, y: 0, z: 0 }
}

/// Component-wise sum.
pub open spec fn vadd(a: V3, b: V3) -> V3 {
    V3 { x: a.x + b.x, y: a.y + b.y, z: a.z + b.z }
}

/// Component-wise difference.
pub open spec fn vsub(a: V3, b: V3) -> V3 {
    V3 { x: a.x - b.x, y: a.y - b.y, z: a.z - b.z }
}

/// Component-wise negation.
pub open spec fn vneg(a: V3) -> V3 {
    V3 { x: -a.x, y: -a.y, z: -a.z }
}

/// Scaling by a fixed-point scalar, each component truncated.
pub open spec fn vscale(t: int, v: V3) -> V3 {
    V3 { x: fxm(t, v.x), y: fxm(t, v.y), z: fxm(t, v.z) }
}

/// Component-wise fixed-point product (colour attenuation).
pub open spec fn vmulv(a: V3, b: V3) -> V3 {
    V3 { x: fxm(a.x, b.x), y: fxm(a.y, b.y), z: fxm(a.z, b.z) }
}

/// Division of each component by a fixed-point scalar.
pub open spec fn vdivs(v: V3, s: int) -> V3 {
    V3 { x: fxd(v.x, s), y: fxd(v.y, s), z: fxd(v.z, s) }
}

/// Fixed-point dot product: the three truncated products, summed exactly.
pub open spec fn vdot(a: V3, b: V3) -> int {
    fxm(a.x, b.x) + fxm(a.y, b.y) + fxm(a.z, b.z)
}

/// All components within the world window accepted by the geometry.
pub open spec fn in_world(v: V3) -> bool {
    &&& -WORLD_MAX <= v.x <= WORLD_MAX
    &&& -WORLD_MAX <= v.y <= WORLD_MAX
    &&& -WORLD_MAX <= v.z <= WORLD_MAX
}

/// All components within the cap for stored surface normals.
pub open spec fn norm_ok(v: V3) -> bool {
    &&& -NORMAL_MAX <= v.x <= NORMAL_MAX
    &&& -NORMAL_MAX <= v.y <= NORMAL_MAX
    &&& -NORMAL_MAX <= v.z <= NORMAL_MAX
}

/// All components within the cap for sampled unit vectors.
pub open spec fn unit_ok(v: V3) -> bool {
    &&& -UNIT_MAX <= v.x <= UNIT_MAX
    &&& -UNIT_MAX <= v.y <= UNIT_MAX
    &&& -UNIT_MAX <= v.z <= UNIT_MAX
}

/// A colour: every channel between black (0) and full intensity (`SCALE`).
pub open spec fn colour_ok(v: V3) -> bool {
    &&& 0 <= v.x <= SCALE
    &&& 0 <= v.y <= SCALE
    &&& 0 <= v.z <= SCALE
}

/// The product of two colours is a colour, and each channel of the
/// product fits the machine word.
pub proof fn lemma_colour_mul(a: V3, b: V3)
    requires
        colour_ok(a),
        colour_ok(b),
    ensures
        colour_ok(vmulv(a, b)),
        i64::MIN <= fxm(a.x, b.x) <= i64::MAX,
        i64::MIN <= fxm(a.y, b.y) <= i64::MAX,
        i64::MIN <= fxm(a.z, b.z) <= i64::MAX,
{
    assert(0 <= a.x * b.x <= (SCALE as int) * (SCALE as int)) by (nonlinear_arith)
        requires
            0 <= a.x <= SCALE as int,
            0 <= b.x <= SCALE as int,
    ;
    assert(0 <= a.y * b.y <= (SCALE as int) * (SCALE as int)) by (nonlinear_arith)
        requires
            0 <= a.y <= SCALE as int,
            0 <= b.y <= SCALE as int,
    ;
    assert(0 <= a.z * b.z <= (SCALE as int) * (SCALE as int)) by (nonlinear_arith)
        requires
            0 <= a.z <= SCALE as int,
            0 <= b.z <= SCALE as int,
    ;
    lemma_fxm_bound(a.x, b.x, SCALE as int);
    lemma_fxm_bound(a.y, b.y, SCALE as int);
    lemma_fxm_bound(a.z, b.z, SCALE as int);
    lemma_tdiv_sign(a.x * b.x, SCALE as int);
    lemma_tdiv_sign(a.y * b.y, SCALE as int);
    lemma_tdiv_sign(a.z * b.z, SCALE as int);
}

/// A fixed-point product stays within `k` when the raw product stays
/// within `SCALE * k`.
pub proof fn lemma_fxm_bound(a: int, b: int, k: int)
    requires
        k >= 0,
        -((SCALE as int) * k) <= a * b,
        a * b <= (SCALE as int) * k,
    ensures
        -k <= fxm(a, b) <= k,
{
    let m: int = (SCALE as int) * k;
    assert(-m <= a * b <= m);
    lemma_tdiv_abs(a * b, SCALE as int, m);
    lemma_div_by_multiple(k, SCALE as int);
    assert(m / (SCALE as int) == k);
}

/// Bound on a dot product from bounds on the operands' components.
pub proof fn lemma_vdot_bound(a: V3, b: V3, ca: int, cb: int, k: int)
    requires
        ca >= 0,
        cb >= 0,
        k >= 0,
        -ca <= a.x <= ca && -ca <= a.y <= ca && -ca <= a.z <= ca,
        -cb <= b.x <= cb && -cb <= b.y <= cb && -cb <= b.z <= cb,
        ca * cb <= (SCALE as int) * k,
    ensures
        -3 * k <= vdot(a, b) <= 3 * k,
{
    assert(-(ca * cb) <= a.x * b.x <= ca * cb) by (nonlinear_arith)
        requires
            -ca <= a.x <= ca,
            -cb <= b.x <= cb,
            ca >= 0,
            cb >= 0,
    ;
    assert(-(ca * cb) <= a.y * b.y <= ca * cb) by (nonlinear_arith)
        requires
            -ca <= a.y <= ca,
            -cb <= b.y <= cb,
            ca >= 0,
            cb >= 0,
    ;
    assert(-(ca * cb) <= a.z * b.z <= ca * cb) by (nonlinear_arith)
        requires
            -ca <= a.z <= ca,
            -cb <= b.z <= cb,
            ca >= 0,
            cb >= 0,
    ;
    lemma_fxm_bound(a.x, b.x, k);
    lemma_fxm_bound(a.y, b.y, k);
    lemma_fxm_bound(a.z, b.z, k);
}

/// The dot product of a vector with itself is nonnegative.
pub proof fn lemma_vdot_self_nonneg(a: V3)
    ensures
        vdot(a, a) >= 0,
{
    lemma_fxm_sq_nonneg(a.x);
    lemma_fxm_sq_nonneg(a.y);
    lemma_fxm_sq_nonneg(a.z);
}

/// Negating a vector does not change its squared length.
pub proof fn lemma_vdot_neg_neg(a: V3)
    ensures
        vdot(vneg(a), vneg(a)) == vdot(a, a),
{
    crate::fixed::lemma_fxm_neg(a.x, -a.x);
    crate::fixed::lemma_fxm_neg(a.x, a.x);
    crate::fixed::lemma_fxm_neg(a.y, -a.y);
    crate::fixed::lemma_fxm_neg(a.y, a.y);
    crate::fixed::lemma_fxm_neg(a.z, -a.z);
    crate::fixed::lemma_fxm_neg(a.z, a.z);
}

/// A vector of squared fixed-point length below one has every component
/// strictly inside the unit box: a component of full magnitude would
/// already contribute a whole unit on its own.
pub proof fn lemma_short_vector_components_strict(a: V3)
    requires
        vdot(a, a) < SCALE,
        -SCALE <= a.x <= SCALE,
        -SCALE <= a.y <= SCALE,
        -SCALE <= a.z <= SCALE,
    ensures
        -SCALE < a.x < SCALE,
        -SCALE < a.y < SCALE,
        -SCALE < a.z < SCALE,
{
    lemma_fxm_sq_nonneg(a.x);
    lemma_fxm_sq_nonneg(a.y);
    lemma_fxm_sq_nonneg(a.z);
    lemma_div_by_multiple(SCALE as int, SCALE as int);
    assert((SCALE as int) * (SCALE as int) == 1_000_000) by (nonlinear_arith);
    if a.x == SCALE as int || a.x == -(SCALE as int) {
        assert(a.x * a.x == (SCALE as int) * (SCALE as int)) by (nonlinear_arith)
            requires
                a.x == SCALE as int || a.x == -(SCALE as int),
        ;
        assert(fxm(a.x, a.x) == SCALE as int);
    }
    if a.y == SCALE as int || a.y == -(SCALE as int) {
        assert(a.y * a.y == (SCALE as int) * (SCALE as int)) by (nonlinear_arith)
            requires
                a.y == SCALE as int || a.y == -(SCALE as int),
        ;
        assert(fxm(a.y, a.y) == SCALE as int);
    }
    if a.z == SCALE as int || a.z == -(SCALE as int) {
        assert(a.z * a.z == (SCALE as int) * (SCALE as int)) by (nonlinear_arith)
            requires
                a.z == SCALE as int || a.z == -(SCALE as int),
        ;
        assert(fxm(a.z, a.z) == SCALE as int);
    }
}

/// The positive axis vector of full magnitude has squared fixed-point
/// length exactly one unit.
pub proof fn lemma_axis_unit_length()
    ensures
        vdot(V3 { x: 0, y: 0, z: SCALE as int }, V3 { x: 0, y: 0, z: SCALE as int })
            == SCALE as int,
{
    lemma_div_of0(SCALE as int);
    assert(fxm(0, 0) == 0);
    lemma_div_by_multiple(SCALE as int, SCALE as int);
    assert((SCALE as int) * (SCALE as int) == 1_000_000) by (nonlinear_arith);
    assert(fxm(SCALE as int, SCALE as int) == SCALE as int);
}

/// Executable fixed-point vector; a component holds its real value times
/// [`SCALE`].
#[derive(Clone, Copy, PartialEq, Eq, Structural, Debug)]
pub struct Vec3 {
    pub x: i64,
    pub y: i64,
    pub z: i64,
}

impl View for Vec3 {
    type V = V3;

    open spec fn view(&self) -> V3 {
        V3 { x: self.x as int, y: self.y as int, z: self.z as int }
    }
}

/// Whether the component-wise sum of two spec vectors fits in `i64`
/// components.
pub open spec fn add_fits(a: V3, b: V3) -> bool {
    &&& i64::MIN <= a.x + b.x <= i64::MAX
    &&& i64::MIN <= a.y + b.y <= i64::MAX
    &&& i64::MIN <= a.z + b.z <= i64::MAX
}

/// Whether the component-wise difference fits in `i64` components.
pub open spec fn sub_fits(a: V3, b: V3) -> bool {
    &&& i64::MIN <= a.x - b.x <= i64::MAX
    &&& i64::MIN <= a.y - b.y <= i64::MAX
    &&& i64::MIN <= a.z - b.z <= i64::MAX
}

/// Whether scaling by `t` fits in `i64` components.
pub open spec fn scale_fits(t: int, v: V3) -> bool {
    &&& i64::MIN <= fxm(t, v.x) <= i64::MAX
    &&& i64::MIN <= fxm(t, v.y) <= i64::MAX
    &&& i64::MIN <= fxm(t, v.z) <= i64::MAX
}

impl Vec3 {
    /// Builds the vector with the given fixed-point components.
    pub fn new(x: i64, y: i64, z: i64) -> (r: Vec3)
        ensures
            r@ == (V3 { x: x as int, y: y as int, z: z as int }),
    {
        Vec3 { x, y, z }
    }

    /// The zero vector (black, as a colour).
    pub fn zero() -> (r: Vec3)
        ensures
            r@ == vzero(),
    {
        Vec3 { x: 0, y: 0, z: 0 }
    }

    /// Component-wise sum.
    pub fn add(&self, o: &Vec3) -> (r: Vec3)
        requires
            add_fits(self@, o@),
        ensures
            r@ == vadd(self@, o@),
    {
        Vec3 { x: self.x + o.x, y: self.y + o.y, z: self.z + o.z }
    }

    /// Component-wise difference.
    pub fn sub(&self, o: &Vec3) -> (r: Vec3)
        requires
            sub_fits(self@, o@),
        ensures
            r@ == vsub(self@, o@),
    {
        Vec3 { x: self.x - o.x, y: self.y - o.y, z: self.z - o.z }
    }

    /// Component-wise negation.
    pub fn neg(&self) -> (r: Vec3)
        requires
            self.x > i64::MIN,
            self.y > i64::MIN,
            self.z > i64::MIN,
        ensures
            r@ == vneg(self@),
    {
        Vec3 { x: -self.x, y: -self.y, z: -self.z }
    }

    /// Scaling by a fixed-point scalar.
    pub fn scaled(&self, t: i64) -> (r: Vec3)
        requires
            scale_fits(t as int, self@),
        ensures
            r@ == vscale(t as int, self@),
    {
        let x: i128 = fxmul_wide(t, self.x);
        let y: i128 = fxmul_wide(t, self.y);
        let z: i128 = fxmul_wide(t, self.z);
        Vec3 { x: x as i64, y: y as i64, z: z as i64 }
    }

    /// Component-wise fixed-point product; both operands are meant to be
    /// colours, whose channels keep the product within range.
    pub fn mul(&self, o: &Vec3) -> (r: Vec3)
        requires
            i64::MIN <= fxm(self@.x, o@.x) <= i64::MAX,
            i64::MIN <= fxm(self@.y, o@.y) <= i64::MAX,
            i64::MIN <= fxm(self@.z, o@.z) <= i64::MAX,
        ensures
            r@ == vmulv(self@, o@),
    {
        let x: i128 = fxmul_wide(self.x, o.x);
        let y: i128 = fxmul_wide(self.y, o.y);
        let z: i128 = fxmul_wide(self.z, o.z);
        Vec3 { x: x as i64, y: y as i64, z: z as i64 }
    }

    /// Whether every component lies in the world window accepted by the
    /// geometry.
    pub fn in_window(&self) -> (b: bool)
        ensures
            b == in_world(self@),
    {
        -WORLD_MAX <= self.x && self.x <= WORLD_MAX && -WORLD_MAX <= self.y && self.y <= WORLD_MAX
            && -WORLD_MAX <= self.z && self.z <= WORLD_MAX
    }

    /// Exact fixed-point dot product, kept wide so that it never overflows.
    pub fn dot_wide(&self, o: &Vec3) -> (r: i128)
        ensures
            r == vdot(self@, o@),
    {
        proof {
            let m: int = 0x4000_0000_0000_0000_0000_0000_0000_0000;
            assert(-m <= (self@.x * o@.x) <= m) by (nonlinear_arith)
                requires
                    -0x8000_0000_0000_0000 <= self@.x <= 0x7fff_ffff_ffff_ffff,
                    -0x8000_0000_0000_0000 <= o@.x <= 0x7fff_ffff_ffff_ffff,
                    m == 0x4000_0000_0000_0000_0000_0000_0000_0000,
            ;
            assert(-m <= (self@.y * o@.y) <= m) by (nonlinear_arith)
                requires
                    -0x8000_0000_0000_0000 <= self@.y <= 0x7fff_ffff_ffff_ffff,
                    -0x8000_0000_0000_0000 <= o@.y <= 0x7fff_ffff_ffff_ffff,
                    m == 0x4000_0000_0000_0000_0000_0000_0000_0000,
            ;
            assert(-m <= (self@.z * o@.z) <= m) by (nonlinear_arith)
                requires
                    -0x8000_0000_0000_0000 <= self@.z <= 0x7fff_ffff_ffff_ffff,
                    -0x8000_0000_0000_0000 <= o@.z <= 0x7fff_ffff_ffff_ffff,
                    m == 0x4000_0000_0000_0000_0000_0000_0000_0000,
            ;
            lemma_tdiv_abs(self@.x * o@.x, SCALE as int, m);
            lemma_tdiv_abs(self@.y * o@.y, SCALE as int, m);
            lemma_tdiv_abs(self@.z * o@.z, SCALE as int, m);
        }
        let x: i128 = fxmul_wide(self.x, o.x);
        let y: i128 = fxmul_wide(self.y, o.y);
        let z: i128 = fxmul_wide(self.z, o.z);
        x + y + z
    }

    /// Fixed-point length: the square root of the dot product with itself,
    /// in fixed-point units. Requires the vector to lie in the world
    /// window so that the scaled radicand stays representable.
    pub fn length_fx(&self) -> (r: i128)
        requires
            in_world(self@),
        ensures
            r == sqrt_floor((vdot(self@, self@) * SCALE) as nat),
            r >= 0,
    {
        proof {
            lemma_vdot_self_nonneg(self@);
            lemma_vdot_bound(self@, self@, WORLD_MAX as int, WORLD_MAX as int,
                4_000_000_000_000_000);
        }
        let ls: i128 = self.dot_wide(self);
        let n: u128 = (ls as u128) * (SCALE as u128);
        let r: u128 = isqrt_u128(n);
        proof {
            crate::fixed::lemma_sqrt_floor_bounds(n as nat);
            assert(r * r <= n);
            assert(r <= 0x1_0000_0000_0000_0000) by (nonlinear_arith)
                requires
                    r * r <= n,
                    n < 0x4000_0000_0000_0000_0000_0000_0000_0000,
                    r >= 0,
            ;
        }
        r as i128
    }
}

} // verus!
