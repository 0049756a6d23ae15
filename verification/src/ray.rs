//! Rays: a parametric line with a fixed-point origin and direction, and
//! the recursive integrator [`Ray::colour`] (defined here, next to the
//! type it belongs to, but specified in terms of the scene model from
//! the neighbouring modules).

use vstd::prelude::*;
use crate::fixed::{SCALE, T_CAP, T_EPS, fxm, fxd, sqrt_floor};
use crate::fixed::{wide_mul, tdiv_i128, fxmul_wide};
use crate::fixed::lemma_tdiv_sign;
use crate::vec3::{V3, Vec3, vzero, vadd, vscale, vmulv, vdot, in_world, unit_ok, colour_ok};
use crate::vec3::{lemma_fxm_bound, lemma_colour_mul};
use crate::hittable::{HittableList, spec_list_hit, list_wf};
use crate::materials::spec_scatter;
use vstd::arithmetic::div_mod::*;

verus! {

/// Spec-level ray.
pub ghost struct RayS {
    pub orig: V3,
    pub dir: V3,
}

/// Both endpoints of the ray description lie in the world window.
pub open spec fn ray_in_world(r: RayS) -> bool {
    in_world(r.orig) && in_world(r.dir)
}

/// The point `origin + t * direction`, in fixed-point arithmetic.
pub open spec fn spec_at(r: RayS, t: int) -> V3 {
    vadd(r.orig, vscale(t, r.dir))
}

/// A ray: origin point plus direction vector, immutable after
/// construction.
#[derive(Clone, Copy)]
pub struct Ray {
    pub origin: Vec3,
    pub direction: Vec3,
}

impl View for Ray {
    type V = RayS;

    open spec fn view(&self) -> RayS {
        RayS { orig: self.origin@, dir: self.direction@ }
    }
}

/// Every component of `spec_at(r, t)` stays within the `i64` window used
/// by the executable geometry, for rays in the world window and
/// parameters up to `T_CAP`.
pub proof fn lemma_at_fits(r: RayS, t: int)
    requires
        ray_in_world(r),
        -T_CAP <= t <= T_CAP,
    ensures
        i64::MIN <= fxm(t, r.dir.x) + r.orig.x <= i64::MAX,
        i64::MIN <= fxm(t, r.dir.y) + r.orig.y <= i64::MAX,
        i64::MIN <= fxm(t, r.dir.z) + r.orig.z <= i64::MAX,
        -8_000_000_000_000_000_000 <= fxm(t, r.dir.x) <= 8_000_000_000_000_000_000,
        -8_000_000_000_000_000_000 <= fxm(t, r.dir.y) <= 8_000_000_000_000_000_000,
        -8_000_000_000_000_000_000 <= fxm(t, r.dir.z) <= 8_000_000_000_000_000_000,
{
    let k: int = 8_000_000_000_000_000_000;
    assert(-((SCALE as int) * k) <= t * r.dir.x && t * r.dir.x <= (SCALE as int) * k)
        by (nonlinear_arith)
        requires
            -4_000_000_000_000 <= t <= 4_000_000_000_000,
            -2_000_000_000 <= r.dir.x <= 2_000_000_000,
            k == 8_000_000_000_000_000_000,
    ;
    assert(-((SCALE as int) * k) <= t * r.dir.y && t * r.dir.y <= (SCALE as int) * k)
        by (nonlinear_arith)
        requires
            -4_000_000_000_000 <= t <= 4_000_000_000_000,
            -2_000_000_000 <= r.dir.y <= 2_000_000_000,
            k == 8_000_000_000_000_000_000,
    ;
    assert(-((SCALE as int) * k) <= t * r.dir.z && t * r.dir.z <= (SCALE as int) * k)
        by (nonlinear_arith)
        requires
            -4_000_000_000_000 <= t <= 4_000_000_000_000,
            -2_000_000_000 <= r.dir.z <= 2_000_000_000,
            k == 8_000_000_000_000_000_000,
    ;
    lemma_fxm_bound(t, r.dir.x, k);
    lemma_fxm_bound(t, r.dir.y, k);
    lemma_fxm_bound(t, r.dir.z, k);
}

/// One channel of the background lerp `(1 - a) * white + a * sky`,
/// with a full-intensity white channel: the first term is exact and the
/// whole channel stays a colour value.
pub proof fn lemma_lerp_channel(aa: int, c: int)
    requires
        0 <= aa <= SCALE as int,
        0 <= c <= SCALE as int,
    ensures
        fxm((SCALE as int) - aa, SCALE as int) == (SCALE as int) - aa,
        0 <= fxm((SCALE as int) - aa, SCALE as int) + fxm(aa, c) <= SCALE as int,
{
    let s: int = SCALE as int;
    assert(0 <= (s - aa) * s) by (nonlinear_arith)
        requires
            0 <= aa <= s,
            s == 1000,
    ;
    lemma_div_by_multiple(s - aa, s);
    assert(0 <= aa * c <= aa * s) by (nonlinear_arith)
        requires
            0 <= aa,
            0 <= c <= s,
    ;
    crate::fixed::lemma_tdiv_sign(aa * c, s);
    crate::fixed::lemma_tdiv_ordered(aa * c, aa * s, s);
    lemma_div_by_multiple(aa, s);
    assert(fxm(aa, s) == aa);
}

/// The vertical component of the normalised ray direction, clamped to
/// the unit range `[-SCALE, SCALE]`; a direction of zero fixed-point
/// length yields 0 (the middle of the gradient), a documented policy for
/// the degenerate case.
pub open spec fn spec_unit_y(r: RayS) -> int {
    let len = sqrt_floor((vdot(r.dir, r.dir) * SCALE) as nat) as int;
    if len == 0 {
        0
    } else {
        let raw = fxd(r.dir.y, len);
        if raw < -(SCALE as int) {
            -(SCALE as int)
        } else if raw > SCALE as int {
            SCALE as int
        } else {
            raw
        }
    }
}

/// The background gradient at remap parameter `a = 0.5 * (unit_y + 1)`:
/// a linear blend from white (at `a = 0`) to sky blue `(0.5, 0.7, 1.0)`
/// (at `a = 1`).
pub open spec fn spec_gradient(uy: int) -> V3 {
    let s: int = SCALE as int;
    let aa = fxm(500, uy + s);
    V3 {
        x: fxm(s - aa, s) + fxm(aa, 500),
        y: fxm(s - aa, s) + fxm(aa, 700),
        z: fxm(s - aa, s) + fxm(aa, s),
    }
}

/// The background colour seen by a ray that hits nothing: the gradient
/// over its normalised vertical direction. The only light source of the
/// scene model.
pub open spec fn spec_background(r: RayS) -> V3 {
    spec_gradient(spec_unit_y(r))
}

/// The gradient boundary values: remap parameter 0 (unit_y at -1) gives
/// pure white, remap parameter 1 (unit_y at +1) gives sky blue.
pub proof fn lemma_gradient_boundary()
    ensures
        spec_gradient(-(SCALE as int)) == (V3 {
            x: SCALE as int,
            y: SCALE as int,
            z: SCALE as int,
        }),
        spec_gradient(SCALE as int) == (V3 { x: 500, y: 700, z: SCALE as int }),
{
    let s: int = SCALE as int;
    lemma_div_of0(s);
    assert(500 * 0 == 0) by (nonlinear_arith);
    assert(fxm(500, 0) == 0);
    lemma_div_by_multiple(s, s);
    assert(fxm(s - 0, s) == s);
    assert(0 * 500 == 0) by (nonlinear_arith);
    assert(0 * 700 == 0) by (nonlinear_arith);
    assert(0 * s == 0) by (nonlinear_arith);
    assert(fxm(0, 500) == 0);
    assert(fxm(0, 700) == 0);
    assert(fxm(0, s) == 0);
    assert(500 * (s + s) == s * s) by (nonlinear_arith)
        requires
            s == 1000,
    ;
    assert(fxm(500, s + s) == s);
    lemma_div_by_multiple(500, s);
    assert(fxm(s, 500) == 500);
    lemma_div_by_multiple(700, s);
    assert(fxm(s, 700) == 700);
    assert(0 <= (s - s) * s) by (nonlinear_arith);
    assert((s - s) * s == 0) by (nonlinear_arith);
    assert(fxm(s - s, s) == 0);
}

/// The recursive radiance model. With no bounces left the result is
/// black; on a hit, the material's scattering attenuates the colour
/// gathered along the scattered ray (drawn with the sampled unit vector
/// `units[i]`), provided that ray stays in the world window (else black,
/// a documented policy); on a miss, the background gradient. The
/// intersection interval is `(T_EPS, T_CAP)`: a small positive epsilon
/// against self-intersection, and the world's stand-in for infinity.
pub open spec fn spec_colour(
    r: RayS,
    depth: int,
    objs: Seq<crate::hittable::Hittable>,
    units: Seq<Vec3>,
    i: int,
) -> V3
    decreases depth,
{
    if depth <= 0 {
        vzero()
    } else {
        match spec_list_hit(objs, r, T_EPS as int, T_CAP as int) {
            Some(rec) => match spec_scatter(rec.material, r, rec, units[i]@) {
                Some(sc_att) => {
                    if ray_in_world(sc_att.0) {
                        vmulv(sc_att.1, spec_colour(sc_att.0, depth - 1, objs, units, i + 1))
                    } else {
                        vzero()
                    }
                },
                None => vzero(),
            },
            None => spec_background(r),
        }
    }
}

/// Depth exhaustion: with no bounces left the integrator returns exactly
/// black, whatever the ray, scene and samples.
pub proof fn lemma_colour_depth_zero(
    r: RayS,
    depth: int,
    objs: Seq<crate::hittable::Hittable>,
    units: Seq<Vec3>,
    i: int,
)
    requires
        depth <= 0,
    ensures
        spec_colour(r, depth, objs, units, i) == vzero(),
{
}

/// With no objects to hit and at least one bounce left, the integrator
/// returns exactly the background gradient: it is the scene's only
/// light source.
pub proof fn lemma_colour_empty_scene(
    r: RayS,
    depth: int,
    objs: Seq<crate::hittable::Hittable>,
    units: Seq<Vec3>,
    i: int,
)
    requires
        depth >= 1,
        objs.len() == 0,
    ensures
        spec_colour(r, depth, objs, units, i) == spec_background(r),
{
    assert(spec_list_hit(objs, r, T_EPS as int, T_CAP as int) is None);
}

impl Ray {
    /// Builds a ray from its origin and direction.
    pub fn new(origin: Vec3, direction: Vec3) -> (r: Ray)
        ensures
            r@ == (RayS { orig: origin@, dir: direction@ }),
    {
        Ray { origin, direction }
    }

    /// The point at parameter `t` along the ray; pure and total on the
    /// accepted window.
    pub fn at(&self, t: i64) -> (p: Vec3)
        requires
            ray_in_world(self@),
            -T_CAP <= t <= T_CAP,
        ensures
            p@ == spec_at(self@, t as int),
    {
        proof {
            lemma_at_fits(self@, t as int);
        }
        let sx: i128 = fxmul_wide(t, self.direction.x);
        let sy: i128 = fxmul_wide(t, self.direction.y);
        let sz: i128 = fxmul_wide(t, self.direction.z);
        Vec3 {
            x: (sx as i64) + self.origin.x,
            y: (sy as i64) + self.origin.y,
            z: (sz as i64) + self.origin.z,
        }
    }

    /// The background gradient seen along this ray, exactly
    /// [`spec_background`]; always a colour.
    pub fn background(&self) -> (col: Vec3)
        requires
            in_world(self@.dir),
        ensures
            col@ == spec_background(self@),
            colour_ok(col@),
    {
        let len: i128 = self.direction.length_fx();
        let uy: i64 = if len == 0 {
            0
        } else {
            let raw: i128 = tdiv_i128(wide_mul(self.direction.y, SCALE), len);
            if raw < -(SCALE as i128) {
                -SCALE
            } else if raw > SCALE as i128 {
                SCALE
            } else {
                raw as i64
            }
        };
        proof {
            assert(uy as int == spec_unit_y(self@));
            assert(0 <= 500 * (uy + SCALE) <= (SCALE as int) * (SCALE as int))
                by (nonlinear_arith)
                requires
                    -1000 <= uy as int <= 1000,
                    SCALE as int == 1000,
            ;
            lemma_fxm_bound(500, uy + SCALE as int, SCALE as int);
            lemma_tdiv_sign(500 * (uy + SCALE as int), SCALE as int);
        }
        let aa128: i128 = fxmul_wide(500, uy + SCALE);
        let aa: i64 = aa128 as i64;
        proof {
            lemma_lerp_channel(aa as int, 500);
            lemma_lerp_channel(aa as int, 700);
            lemma_lerp_channel(aa as int, SCALE as int);
        }
        let w: i128 = fxmul_wide(SCALE - aa, SCALE);
        let bx: i128 = fxmul_wide(aa, 500);
        let by: i128 = fxmul_wide(aa, 700);
        let bz: i128 = fxmul_wide(aa, SCALE);
        Vec3 {
            x: (w + bx) as i64,
            y: (w + by) as i64,
            z: (w + bz) as i64,
        }
    }

    /// The colour seen along this ray: recursive Monte-Carlo radiance
    /// accumulation, bounded by `depth`. The randomness is supplied by
    /// the caller as a sequence of sampled unit vectors, one consumed
    /// per bounce starting at index `next`, which makes the function
    /// deterministic and its result exactly [`spec_colour`].
    pub fn colour(
        &self,
        depth: i32,
        world: &HittableList,
        units: &Vec<Vec3>,
        next: usize,
    ) -> (col: Vec3)
        requires
            ray_in_world(self@),
            list_wf(world@),
            depth > 0 ==> next + depth <= units@.len(),
            forall|j: int|
                next <= j < units@.len() ==> unit_ok(#[trigger] units@[j]@),
        ensures
            col@ == spec_colour(self@, depth as int, world@, units@, next as int),
            colour_ok(col@),
        decreases depth,
    {
        if depth <= 0 {
            return Vec3::zero();
        }
        let n_units: usize = units.len();
        match world.hit(self, T_EPS, T_CAP) {
            Some(record) => {
                let unit = units[next];
                match record.material.scatter(self, &record, &unit) {
                    Some((scattered, attenuation)) => {
                        if scattered.origin.in_window() && scattered.direction.in_window() {
                            let gathered = scattered.colour(depth - 1, world, units, next + 1);
                            proof {
                                lemma_colour_mul(attenuation@, gathered@);
                            }
                            attenuation.mul(&gathered)
                        } else {
                            Vec3::zero()
                        }
                    },
                    None => Vec3::zero(),
                }
            },
            None => self.background(),
        }
    }
}

} // verus!
