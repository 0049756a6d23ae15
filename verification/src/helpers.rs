//! Random vector helpers: uniform sampling in the unit sphere, on the
//! unit sphere, and on a hemisphere.
//!
//! The pseudo-random source itself is outside the verified core: it is
//! reached through one narrow trusted wrapper around `fastrand`, whose
//! contract states only what holds of every outcome (the drawn value
//! lies below the bound). Everything built on top of it is verified for
//! every value the wrapper could return; in particular every sampled
//! unit vector carries a proved squared-length band
//! `[UNIT_SQ_MIN, UNIT_SQ_MAX]` around one, so no outcome is ever the
//! zero vector or far from unit length.

use vstd::prelude::*;
use crate::fixed::{SCALE, UNIT_MAX, UNIT_SQ_MIN, UNIT_SQ_MAX};
use crate::fixed::{wide_mul, tdiv_i128};
use crate::vec3::{V3, Vec3, vdot, vneg, unit_ok, norm_ok};
use crate::vec3::{lemma_vdot_neg_neg, lemma_short_vector_components_strict, lemma_axis_unit_length};
use crate::fixed::lemma_fxm_neg;

verus! {

/// Relies on fastrand::u64: a value drawn from the range `0..n` lies
/// strictly below `n`; the range is nonempty, so the call cannot panic.
#[verifier::external_body]
pub(crate) fn rand_below(n: u64) -> (r: u64)
    requires
        1 <= n,
    ensures
        r < n,
{
    fastrand::u64(0..n)
}

/// A uniform fixed-point component in `[lo, hi)`.
fn random_component(lo: i64, hi: i64) -> (r: i64)
    requires
        -1_000_000_000 <= lo < hi <= 1_000_000_000,
    ensures
        lo <= r < hi,
{
    let span: u64 = (hi - lo) as u64;
    let draw: u64 = rand_below(span);
    lo + (draw as i64)
}

/// A vector whose components are each drawn uniformly from `[lo, hi)`.
pub fn random_in_range(lo: i64, hi: i64) -> (v: Vec3)
    requires
        -1_000_000_000 <= lo < hi <= 1_000_000_000,
    ensures
        lo <= v@.x < hi,
        lo <= v@.y < hi,
        lo <= v@.z < hi,
{
    Vec3 {
        x: random_component(lo, hi),
        y: random_component(lo, hi),
        z: random_component(lo, hi),
    }
}

/// Rejection sampling of a point inside the unit sphere: candidates are
/// drawn from the cube `[-1, 1)^3` until one has squared length below
/// one. The attempt count is bounded; if every candidate is rejected
/// (vanishingly unlikely), the origin is returned, which also lies in
/// the sphere. Every outcome has all components strictly inside the
/// unit box.
pub fn random_in_unit_sphere() -> (v: Vec3)
    ensures
        vdot(v@, v@) < SCALE,
        -SCALE < v@.x < SCALE,
        -SCALE < v@.y < SCALE,
        -SCALE < v@.z < SCALE,
{
    let mut attempts: u32 = 64;
    while attempts > 0
        decreases attempts,
    {
        let p = random_in_range(-SCALE, SCALE);
        let ls: i128 = p.dot_wide(&p);
        if ls < SCALE as i128 {
            proof {
                lemma_short_vector_components_strict(p@);
            }
            return p;
        }
        attempts = attempts - 1;
    }
    proof {
        crate::vec3::lemma_vdot_self_nonneg(V3 { x: 0, y: 0, z: 0 });
        crate::fixed::lemma_tdiv_sign(0, SCALE as int);
    }
    Vec3::zero()
}

/// A sampled vector of fixed-point unit length: a point of the unit
/// sphere's outer shell (squared length in `[1/4, 1)`, so that the
/// normalisation error stays small), normalised, and accepted only when
/// its squared length lands in the `[UNIT_SQ_MIN, UNIT_SQ_MAX]` band
/// around one. If no candidate is accepted within the attempt bound
/// (vanishingly unlikely), the upward axis vector — of exactly unit
/// length — is returned, a documented policy. So every outcome lies in
/// the band: no result is ever the zero vector or far from unit length.
pub fn random_unit_vector() -> (v: Vec3)
    ensures
        unit_ok(v@),
        UNIT_SQ_MIN <= vdot(v@, v@) <= UNIT_SQ_MAX,
{
    let mut attempts: u32 = 64;
    while attempts > 0
        decreases attempts,
    {
        let p = random_in_unit_sphere();
        let ls: i128 = p.dot_wide(&p);
        if ls >= 250 {
            let len: i128 = p.length_fx();
            if len >= 1 {
                let ux: i128 = tdiv_i128(wide_mul(p.x, SCALE), len);
                let uy: i128 = tdiv_i128(wide_mul(p.y, SCALE), len);
                let uz: i128 = tdiv_i128(wide_mul(p.z, SCALE), len);
                let um: i128 = UNIT_MAX as i128;
                if -um <= ux && ux <= um && -um <= uy && uy <= um && -um <= uz && uz <= um {
                    let u = Vec3 { x: ux as i64, y: uy as i64, z: uz as i64 };
                    let q: i128 = u.dot_wide(&u);
                    if UNIT_SQ_MIN as i128 <= q && q <= UNIT_SQ_MAX as i128 {
                        return u;
                    }
                }
            }
        }
        attempts = attempts - 1;
    }
    proof {
        lemma_axis_unit_length();
    }
    Vec3 { x: 0, y: 0, z: SCALE }
}

/// A sampled unit vector on the hemisphere around `normal`: the unit
/// sample, flipped if it points against the normal. The result never
/// opposes the normal and keeps the sampled unit-length band.
pub fn random_on_hemisphere(normal: &Vec3) -> (v: Vec3)
    requires
        norm_ok(normal@),
    ensures
        unit_ok(v@),
        UNIT_SQ_MIN <= vdot(v@, v@) <= UNIT_SQ_MAX,
        vdot(v@, normal@) >= 0,
{
    let u = random_unit_vector();
    let d: i128 = u.dot_wide(normal);
    if d > 0 {
        u
    } else {
        proof {
            lemma_fxm_neg(u@.x, normal@.x);
            lemma_fxm_neg(u@.y, normal@.y);
            lemma_fxm_neg(u@.z, normal@.z);
            assert(vdot(vneg(u@), normal@) == -vdot(u@, normal@));
            lemma_vdot_neg_neg(u@);
        }
        u.neg()
    }
}

/// Draws `count` unit vectors, one for each potential bounce of a
/// recursive trace; each carries the sampled unit-length band.
pub fn random_unit_vectors(count: usize) -> (v: Vec<Vec3>)
    ensures
        v@.len() == count,
        forall|j: int|
            0 <= j < count ==> unit_ok(#[trigger] v@[j]@) && UNIT_SQ_MIN <= vdot(v@[j]@, v@[j]@)
                <= UNIT_SQ_MAX,
{
    let mut v: Vec<Vec3> = Vec::new();
    let mut i: usize = 0;
    while i < count
        invariant
            0 <= i <= count,
            v@.len() == i,
            forall|j: int|
                0 <= j < i ==> unit_ok(#[trigger] v@[j]@) && UNIT_SQ_MIN <= vdot(v@[j]@, v@[j]@)
                    <= UNIT_SQ_MAX,
        decreases count - i,
    {
        v.push(random_unit_vector());
        i = i + 1;
    }
    v
}

} // verus!
