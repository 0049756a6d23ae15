//! Materials: the scattering capability and its one concrete policy,
//! ideal diffuse (Lambertian) reflection.
//!
//! Scattering is deterministic here: the sampled unit vector that drives
//! the diffuse bounce is handed in by the caller, so the contract states
//! exactly which scattered ray and attenuation come back for every input.

use vstd::prelude::*;
use crate::fixed::{SCALE, NORMAL_MAX, UNIT_MAX};
use crate::vec3::{V3, Vec3, vzero, vadd, norm_ok, unit_ok, colour_ok};
use crate::ray::{Ray, RayS};
use crate::hittable::{HitRecord, HitRecS};

verus! {

/// Spec-level Lambertian material: a fixed albedo colour.
pub ghost struct LambS {
    pub albedo: V3,
}

/// Spec-level material.
pub ghost enum MatS {
    Lambertian(LambS),
}

/// A material is well formed when its albedo is a colour: every channel
/// within `[0, SCALE]`, the fixed-point image of `[0, 1]`.
pub open spec fn mat_wf(m: MatS) -> bool {
    match m {
        MatS::Lambertian(l) => colour_ok(l.albedo),
    }
}

/// Diffuse scattering: the scatter direction is the stored normal plus
/// the sampled unit vector; if that sum is exactly zero (the degenerate
/// sample), the bare normal is used instead. The scattered ray starts at
/// the hit point; the attenuation is the albedo. A Lambertian never
/// declines to scatter.
pub open spec fn spec_scatter(m: MatS, r_in: RayS, rec: HitRecS, unit: V3) -> Option<(RayS, V3)> {
    match m {
        MatS::Lambertian(l) => {
            let d0 = vadd(rec.normal, unit);
            let dir = if d0 == vzero() {
                rec.normal
            } else {
                d0
            };
            Some((RayS { orig: rec.p, dir }, l.albedo))
        },
    }
}

/// Ideal diffuse material with a fixed albedo.
#[derive(Clone, Copy)]
pub struct Lambertian {
    albedo: Vec3,
}

impl View for Lambertian {
    type V = LambS;

    closed spec fn view(&self) -> LambS {
        LambS { albedo: self.albedo@ }
    }
}

impl Lambertian {
    /// Builds the material; the albedo must be a colour, each channel in
    /// `[0, SCALE]`.
    pub fn new(colour: Vec3) -> (r: Lambertian)
        requires
            colour_ok(colour@),
        ensures
            r@ == (LambS { albedo: colour@ }),
    {
        Lambertian { albedo: colour }
    }
}

/// A material, tagged by its concrete kind.
#[derive(Clone, Copy)]
pub enum Material {
    Lambertian(Lambertian),
}

impl View for Material {
    type V = MatS;

    open spec fn view(&self) -> MatS {
        match self {
            Material::Lambertian(l) => MatS::Lambertian(l@),
        }
    }
}

impl Material {
    /// Given the incoming ray and the hit record, produce the scattered
    /// ray and the attenuation colour, exactly as [`spec_scatter`] says.
    pub fn scatter(&self, r_in: &Ray, record: &HitRecord, unit: &Vec3) -> (res: Option<(Ray, Vec3)>)
        requires
            norm_ok(record@.normal),
            unit_ok(unit@),
        ensures
            res is Some,
            match res {
                Some((scattered, attenuation)) => spec_scatter(self@, r_in@, record@, unit@)
                    == Some((scattered@, attenuation@)),
                None => spec_scatter(self@, r_in@, record@, unit@) is None,
            },
    {
        match self {
            Material::Lambertian(l) => {
                let d0 = record.normal.add(unit);
                let dir = if d0.x == 0 && d0.y == 0 && d0.z == 0 {
                    record.normal
                } else {
                    d0
                };
                Some((Ray::new(record.p, dir), l.albedo))
            },
        }
    }
}

} // verus!
