//! The one concrete primitive: a sphere with an owned material, and its
//! analytic ray intersection.
//!
//! With `O` the ray origin, `D` its direction, `C` the center and `r`
//! the radius, the quadratic `|O + tD - C|^2 = r^2` is solved through
//! `a = |D|^2`, `half_b = (O-C)·D`, `c = |O-C|^2 - r^2` and
//! `discriminant = half_b^2 - a*c`, all in fixed-point arithmetic. The
//! smaller root is preferred if it lies strictly inside `(t_min, t_max)`,
//! else the larger is tried, else there is no hit; this picks the nearest
//! valid surface point even from inside the sphere. Two documented
//! numeric policies make the routine total: a nonpositive quadratic
//! coefficient `a` (a degenerate ray direction) reports no hit, and a
//! computed outward normal outside the `NORMAL_MAX` window reports no
//! hit.

use vstd::prelude::*;
use vstd::arithmetic::div_mod::*;
use crate::fixed::{SCALE, WORLD_MAX, T_CAP, NORMAL_MAX, tdiv, fxm, sqrt_floor};
use crate::fixed::{wide_mul, tdiv_i128, fxmul_wide, isqrt_u128};
use crate::fixed::{lemma_tdiv_ordered, lemma_fxm_sq_nonneg};
use crate::vec3::{V3, Vec3, vsub, vdivs, vdot, in_world, norm_ok};
use crate::vec3::{lemma_fxm_bound, lemma_vdot_bound, lemma_vdot_self_nonneg};
use crate::ray::{Ray, RayS, ray_in_world, spec_at, lemma_at_fits};
use crate::hittable::{HitRecord, HitRecS, spec_face_normal, spec_front_face};
use crate::materials::{Material, MatS, mat_wf};

verus! {

/// Spec-level sphere.
pub ghost struct SphereS {
    pub center: V3,
    pub radius: int,
    pub material: MatS,
}

/// Well-formedness: center in the world window, radius positive and
/// bounded, material well formed.
pub open spec fn sphere_wf(s: SphereS) -> bool {
    &&& in_world(s.center)
    &&& 0 < s.radius <= WORLD_MAX
    &&& mat_wf(s.material)
}

/// `O - C`: the ray origin relative to the center.
pub open spec fn sp_oc(s: SphereS, r: RayS) -> V3 {
    vsub(r.orig, s.center)
}

/// Quadratic coefficient `a = |D|^2`.
pub open spec fn sp_a(r: RayS) -> int {
    vdot(r.dir, r.dir)
}

/// Half the linear coefficient, `(O-C)·D`.
pub open spec fn sp_half_b(s: SphereS, r: RayS) -> int {
    vdot(sp_oc(s, r), r.dir)
}

/// Constant coefficient `|O-C|^2 - r^2`.
pub open spec fn sp_c(s: SphereS, r: RayS) -> int {
    vdot(sp_oc(s, r), sp_oc(s, r)) - fxm(s.radius, s.radius)
}

/// The discriminant `half_b^2 - a*c`, in fixed-point arithmetic.
pub open spec fn sp_disc(s: SphereS, r: RayS) -> int {
    fxm(sp_half_b(s, r), sp_half_b(s, r)) - fxm(sp_a(r), sp_c(s, r))
}

/// Fixed-point square root of the discriminant.
pub open spec fn sp_sqrt_disc(s: SphereS, r: RayS) -> int {
    sqrt_floor((sp_disc(s, r) * SCALE) as nat) as int
}

/// The smaller root `(-half_b - sqrt(disc)) / a`.
pub open spec fn sp_root_near(s: SphereS, r: RayS) -> int {
    tdiv((-sp_half_b(s, r) - sp_sqrt_disc(s, r)) * SCALE, sp_a(r))
}

/// The larger root `(-half_b + sqrt(disc)) / a`.
pub open spec fn sp_root_far(s: SphereS, r: RayS) -> int {
    tdiv((-sp_half_b(s, r) + sp_sqrt_disc(s, r)) * SCALE, sp_a(r))
}

/// Which root, if any, the intersection reports: the smaller root if it
/// lies strictly inside `(t_min, t_max)`, else the larger, else none.
/// A nonpositive `a` or a negative discriminant reports none.
pub open spec fn spec_chosen_root(s: SphereS, r: RayS, t_min: int, t_max: int) -> Option<int> {
    if sp_a(r) <= 0 {
        None
    } else if sp_disc(s, r) < 0 {
        None
    } else if t_min < sp_root_near(s, r) && sp_root_near(s, r) < t_max {
        Some(sp_root_near(s, r))
    } else if t_min < sp_root_far(s, r) && sp_root_far(s, r) < t_max {
        Some(sp_root_far(s, r))
    } else {
        None
    }
}

/// The outward normal at the point of parameter `root`:
/// `(hit_point - C) / r`, unit length up to fixed-point truncation.
pub open spec fn sp_outward(s: SphereS, r: RayS, root: int) -> V3 {
    vdivs(vsub(spec_at(r, root), s.center), s.radius)
}

/// The full spec-level intersection of a sphere.
pub open spec fn spec_sphere_hit(s: SphereS, r: RayS, t_min: int, t_max: int)
    -> Option<HitRecS> {
    match spec_chosen_root(s, r, t_min, t_max) {
        None => None,
        Some(root) => {
            let outward = sp_outward(s, r, root);
            if !norm_ok(outward) {
                None
            } else {
                Some(HitRecS {
                    p: spec_at(r, root),
                    normal: spec_face_normal(r, outward),
                    t: root,
                    front_face: spec_front_face(r, outward),
                    material: s.material,
                })
            }
        },
    }
}

/// The smaller root never exceeds the larger.
pub proof fn lemma_roots_ordered(s: SphereS, r: RayS)
    requires
        sp_a(r) >= 1,
        sp_disc(s, r) >= 0,
    ensures
        sp_root_near(s, r) <= sp_root_far(s, r),
{
    let hb = sp_half_b(s, r);
    let sd = sp_sqrt_disc(s, r);
    assert(sd >= 0);
    assert((-hb - sd) * (SCALE as int) <= (-hb + sd) * (SCALE as int)) by (nonlinear_arith)
        requires
            sd >= 0,
    ;
    lemma_tdiv_ordered((-hb - sd) * (SCALE as int), (-hb + sd) * (SCALE as int), sp_a(r));
}

/// Narrowing the search interval down to just above a reported hit keeps
/// exactly that hit: the fold over a scene cannot lose the nearest hit.
pub proof fn lemma_sphere_hit_narrow(s: SphereS, r: RayS, t_min: int, t_max: int, t_cut: int)
    requires
        spec_sphere_hit(s, r, t_min, t_max) is Some,
        spec_sphere_hit(s, r, t_min, t_max)->Some_0.t < t_cut <= t_max,
    ensures
        spec_sphere_hit(s, r, t_min, t_cut) == spec_sphere_hit(s, r, t_min, t_max),
{
    let near = sp_root_near(s, r);
    let far = sp_root_far(s, r);
    lemma_roots_ordered(s, r);
    if t_min < near && near < t_max {
    } else {
        assert(spec_chosen_root(s, r, t_min, t_max) == Some(far));
        assert(!(t_min < near && near < t_cut));
    }
}

/// Root symmetry: whenever the discriminant is nonnegative (both roots
/// real), the two roots are symmetric about `-half_b / a`, to within the
/// two units of truncation the three divisions can introduce.
pub proof fn lemma_roots_symmetric(s: SphereS, r: RayS)
    requires
        sp_a(r) >= 1,
        sp_disc(s, r) >= 0,
    ensures
        -2 <= sp_root_near(s, r) + sp_root_far(s, r)
            - tdiv(-2 * sp_half_b(s, r) * (SCALE as int), sp_a(r)) <= 2,
{
    let a = sp_a(r);
    let hb = sp_half_b(s, r);
    let sd = sp_sqrt_disc(s, r);
    let n1 = (-hb - sd) * (SCALE as int);
    let n2 = (-hb + sd) * (SCALE as int);
    let nm = -2 * hb * (SCALE as int);
    assert(n1 + n2 == nm) by (nonlinear_arith)
        requires
            n1 == (-hb - sd) * (SCALE as int),
            n2 == (-hb + sd) * (SCALE as int),
            nm == -2 * hb * (SCALE as int),
    ;
    crate::fixed::lemma_tdiv_mul_range(n1, a);
    crate::fixed::lemma_tdiv_mul_range(n2, a);
    crate::fixed::lemma_tdiv_mul_range(nm, a);
    let rn = tdiv(n1, a);
    let rf = tdiv(n2, a);
    let m = tdiv(nm, a);
    assert(-2 <= rn + rf - m <= 2) by (nonlinear_arith)
        requires
            a >= 1,
            n1 - a < a * rn < n1 + a,
            n2 - a < a * rf < n2 + a,
            nm - a < a * m < nm + a,
            n1 + n2 == nm,
    ;
}

/// The computed outward normal really faces outward: it never points
/// back toward the center, whatever the ray and root.
pub proof fn lemma_outward_faces_outward(s: SphereS, r: RayS, root: int)
    requires
        s.radius >= 1,
    ensures
        vdot(sp_outward(s, r, root), vsub(spec_at(r, root), s.center)) >= 0,
{
    let delta = vsub(spec_at(r, root), s.center);
    crate::fixed::lemma_fxd_sign_product(delta.x, s.radius);
    crate::fixed::lemma_fxd_sign_product(delta.y, s.radius);
    crate::fixed::lemma_fxd_sign_product(delta.z, s.radius);
}

/// Cutting the search interval at or below a reported hit leaves
/// nothing: the sphere has no intersection strictly closer than the one
/// it reports.
pub proof fn lemma_sphere_hit_tightened_none(
    s: SphereS,
    r: RayS,
    t_min: int,
    t_max: int,
    t_cut: int,
)
    requires
        spec_sphere_hit(s, r, t_min, t_max) is Some,
        t_cut <= spec_sphere_hit(s, r, t_min, t_max)->Some_0.t,
        t_cut <= t_max,
    ensures
        spec_sphere_hit(s, r, t_min, t_cut) is None,
{
    lemma_roots_ordered(s, r);
    let near = sp_root_near(s, r);
    let far = sp_root_far(s, r);
    if t_min < near && near < t_cut {
        assert(near < t_max);
        assert(spec_chosen_root(s, r, t_min, t_max) == Some(near));
    } else if t_min < far && far < t_cut {
        assert(far < t_max);
    }
}

/// A hit found in a narrowed interval is the same hit the full interval
/// reports: narrowing never invents a new intersection.
pub proof fn lemma_sphere_hit_widen(s: SphereS, r: RayS, t_min: int, t_cut: int, t_max: int)
    requires
        t_cut <= t_max,
        spec_sphere_hit(s, r, t_min, t_cut) is Some,
    ensures
        spec_sphere_hit(s, r, t_min, t_max) == spec_sphere_hit(s, r, t_min, t_cut),
        spec_sphere_hit(s, r, t_min, t_cut)->Some_0.t < t_cut,
{
    lemma_roots_ordered(s, r);
    let near = sp_root_near(s, r);
    let far = sp_root_far(s, r);
    if t_min < near && near < t_cut {
    } else {
        assert(spec_chosen_root(s, r, t_min, t_cut) == Some(far));
        assert(near <= t_min);
        assert(!(t_min < near && near < t_max));
    }
}

/// A sphere entirely behind the ray: when both roots are nonpositive and
/// the interval starts at or above zero, no hit is reported.
pub proof fn lemma_behind_no_hit(s: SphereS, r: RayS, t_min: int, t_max: int)
    requires
        sp_root_near(s, r) <= 0,
        sp_root_far(s, r) <= 0,
        t_min >= 0,
    ensures
        spec_sphere_hit(s, r, t_min, t_max) is None,
{
}

/// A sphere: center point, positive radius, and exactly one owned
/// material, immutable after construction.
pub struct Sphere {
    center: Vec3,
    radius: i64,
    material: Material,
}

impl View for Sphere {
    type V = SphereS;

    closed spec fn view(&self) -> SphereS {
        SphereS {
            center: self.center@,
            radius: self.radius as int,
            material: self.material@,
        }
    }
}

impl Sphere {
    /// Builds a sphere; the center must lie in the world window and the
    /// radius be positive and bounded, so that the intersection
    /// arithmetic stays representable.
    pub fn new(center: Vec3, radius: i64, material: Material) -> (s: Sphere)
        requires
            in_world(center@),
            0 < radius <= WORLD_MAX,
            mat_wf(material@),
        ensures
            s@ == (SphereS { center: center@, radius: radius as int, material: material@ }),
            sphere_wf(s@),
    {
        Sphere { center, radius, material }
    }

    /// Analytic ray-sphere intersection, proved equal to
    /// [`spec_sphere_hit`].
    pub fn hit(&self, r: &Ray, t_min: i64, t_max: i64) -> (res: Option<HitRecord>)
        requires
            sphere_wf(self@),
            ray_in_world(r@),
            0 <= t_min,
            t_max <= T_CAP,
        ensures
            match res {
                Some(rec) => {
                    &&& spec_sphere_hit(self@, r@, t_min as int, t_max as int) == Some(rec@)
                    &&& norm_ok(rec@.normal)
                    &&& mat_wf(rec@.material)
                    &&& t_min < rec@.t < t_max
                },
                None => spec_sphere_hit(self@, r@, t_min as int, t_max as int) is None,
            },
    {
        let ghost sv = self@;
        let ghost rv = r@;
        let oc = r.origin.sub(&self.center);
        proof {
            assert(oc@ == sp_oc(sv, rv));
            lemma_vdot_self_nonneg(rv.dir);
            lemma_vdot_bound(rv.dir, rv.dir, WORLD_MAX as int, WORLD_MAX as int,
                4_000_000_000_000_000);
            lemma_vdot_bound(oc@, rv.dir, 2 * WORLD_MAX as int, WORLD_MAX as int,
                8_000_000_000_000_000);
            lemma_vdot_self_nonneg(oc@);
            lemma_vdot_bound(oc@, oc@, 2 * WORLD_MAX as int, 2 * WORLD_MAX as int,
                16_000_000_000_000_000);
            lemma_fxm_sq_nonneg(sv.radius);
            assert(-(1000 * 4_000_000_000_000_000) <= sv.radius * sv.radius
                <= 1000 * 4_000_000_000_000_000) by (nonlinear_arith)
                requires
                    0 < sv.radius <= 2_000_000_000,
            ;
            lemma_fxm_bound(sv.radius, sv.radius, 4_000_000_000_000_000);
        }
        let a: i128 = r.direction.dot_wide(&r.direction);
        let half_b: i128 = oc.dot_wide(&r.direction);
        let oc_len_sq: i128 = oc.dot_wide(&oc);
        let r_sq: i128 = fxmul_wide(self.radius, self.radius);
        let c: i128 = oc_len_sq - r_sq;
        proof {
            assert(a == sp_a(rv));
            assert(half_b == sp_half_b(sv, rv));
            assert(c == sp_c(sv, rv));
        }
        if a <= 0 {
            return None;
        }
        proof {
            let big: int = 1_000_000_000_000_000_000_000_000_000_000;
            assert(-(1000 * big) <= (half_b as int) * (half_b as int) <= 1000 * big)
                by (nonlinear_arith)
                requires
                    -24_000_000_000_000_000 <= half_b as int <= 24_000_000_000_000_000,
                    big == 1_000_000_000_000_000_000_000_000_000_000,
            ;
            assert(-(1000 * big) <= (a as int) * (c as int) <= 1000 * big)
                by (nonlinear_arith)
                requires
                    0 <= a as int <= 12_000_000_000_000_000,
                    -52_000_000_000_000_000 <= c as int <= 52_000_000_000_000_000,
                    big == 1_000_000_000_000_000_000_000_000_000_000,
            ;
            lemma_fxm_bound(half_b as int, half_b as int, big);
            lemma_fxm_bound(a as int, c as int, big);
        }
        let hb_sq: i128 = tdiv_i128(half_b * half_b, SCALE as i128);
        let ac: i128 = tdiv_i128(a * c, SCALE as i128);
        let discriminant: i128 = hb_sq - ac;
        proof {
            assert(discriminant == sp_disc(sv, rv));
        }
        if discriminant < 0 {
            return None;
        }
        let n_rad: u128 = (discriminant as u128) * (SCALE as u128);
        let sqrt_d: u128 = isqrt_u128(n_rad);
        proof {
            assert(sqrt_d as int <= 50_000_000_000_000_000) by (nonlinear_arith)
                requires
                    (sqrt_d as int) * (sqrt_d as int) <= n_rad as int,
                    n_rad as int <= 2_000_000_000_000_000_000_000_000_000_000_000,
                    sqrt_d as int >= 0,
            ;
            assert(sqrt_d as int == sp_sqrt_disc(sv, rv));
        }
        let sd: i128 = sqrt_d as i128;
        let root_near: i128 = tdiv_i128((-half_b - sd) * (SCALE as i128), a);
        let root_far: i128 = tdiv_i128((-half_b + sd) * (SCALE as i128), a);
        proof {
            assert(root_near == sp_root_near(sv, rv));
            assert(root_far == sp_root_far(sv, rv));
        }
        let t_min_w: i128 = t_min as i128;
        let t_max_w: i128 = t_max as i128;
        let root: i128 = if t_min_w < root_near && root_near < t_max_w {
            root_near
        } else if t_min_w < root_far && root_far < t_max_w {
            root_far
        } else {
            return None;
        };
        proof {
            assert(spec_chosen_root(sv, rv, t_min as int, t_max as int) == Some(root as int));
        }
        let root64: i64 = root as i64;
        let p = r.at(root64);
        proof {
            lemma_at_fits(rv, root as int);
        }
        let delta = p.sub(&self.center);
        proof {
            assert(delta@ == vsub(spec_at(rv, root as int), sv.center));
        }
        let ox: i128 = tdiv_i128(wide_mul(delta.x, SCALE), self.radius as i128);
        let oy: i128 = tdiv_i128(wide_mul(delta.y, SCALE), self.radius as i128);
        let oz: i128 = tdiv_i128(wide_mul(delta.z, SCALE), self.radius as i128);
        proof {
            assert(ox == sp_outward(sv, rv, root as int).x);
            assert(oy == sp_outward(sv, rv, root as int).y);
            assert(oz == sp_outward(sv, rv, root as int).z);
        }
        let nm: i128 = NORMAL_MAX as i128;
        if ox < -nm || ox > nm || oy < -nm || oy > nm || oz < -nm || oz > nm {
            proof {
                assert(!norm_ok(sp_outward(sv, rv, root as int)));
            }
            return None;
        }
        let outward = Vec3 { x: ox as i64, y: oy as i64, z: oz as i64 };
        proof {
            assert(outward@ == sp_outward(sv, rv, root as int));
        }
        let rec = HitRecord::with_face_normal(p, outward, root64, r, self.material);
        Some(rec)
    }
}

} // verus!
