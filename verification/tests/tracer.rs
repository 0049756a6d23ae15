//! End-to-end checks of the fixed-point tracer on concrete scenes.
//! All values are fixed-point: a component holds its real value times 1000.

use raytracer::fixed::{isqrt_u128, tdiv_i128, wide_mul, SCALE, T_CAP, T_EPS};
use raytracer::hittable::{HitRecord, Hittable, HittableList};
use raytracer::materials::{Lambertian, Material};
use raytracer::ray::Ray;
use raytracer::shapes::Sphere;
use raytracer::vec3::Vec3;

fn grey_material() -> Material {
    Material::Lambertian(Lambertian::new(Vec3::new(500, 500, 500)))
}

fn one_sphere_world() -> HittableList {
    let mut world = HittableList::new();
    world.add(Hittable::Sphere(Sphere::new(
        Vec3::new(0, 0, -1000),
        500,
        grey_material(),
    )));
    world
}

#[test]
fn integer_sqrt_exact_values() {
    assert_eq!(isqrt_u128(0), 0);
    assert_eq!(isqrt_u128(1), 1);
    assert_eq!(isqrt_u128(999), 31);
    assert_eq!(isqrt_u128(250_000), 500);
    assert_eq!(isqrt_u128(1_000_000), 1000);
}

#[test]
fn wide_arithmetic_truncates_toward_zero() {
    assert_eq!(wide_mul(-3, 7), -21);
    assert_eq!(tdiv_i128(7, 2), 3);
    assert_eq!(tdiv_i128(-7, 2), -3);
    assert_eq!(tdiv_i128(999, 1000), 0);
    assert_eq!(tdiv_i128(-999, 1000), 0);
}

#[test]
fn vector_ops_are_fixed_point_exact() {
    let a = Vec3::new(1000, -2000, 500);
    let b = Vec3::new(250, 250, -250);
    assert_eq!(a.add(&b), Vec3::new(1250, -1750, 250));
    assert_eq!(a.sub(&b), Vec3::new(750, -2250, 750));
    assert_eq!(a.neg(), Vec3::new(-1000, 2000, -500));
    assert_eq!(a.scaled(500), Vec3::new(500, -1000, 250));
    // Componentwise product of two colours, each channel truncated.
    let c = Vec3::new(500, 700, 999);
    let d = Vec3::new(500, 500, 999);
    assert_eq!(c.mul(&d), Vec3::new(250, 350, 998));
    // Dot product: 0.25 - 0.5 - 0.125 = -0.375.
    assert_eq!(a.dot_wide(&b), 250 - 500 - 125);
}

#[test]
fn tangent_ray_grazes_with_zero_discriminant() {
    // The ray grazes the sphere: the discriminant is exactly zero and
    // both roots coincide; the touch point does not count as a
    // front-face hit (the direction is orthogonal to the normal, not
    // strictly against it).
    let s = Sphere::new(Vec3::new(0, 0, -2000), 500, grey_material());
    let r = Ray::new(Vec3::new(0, 500, 0), Vec3::new(0, 0, -1000));
    let rec = s.hit(&r, T_EPS, T_CAP).expect("grazing hit");
    assert_eq!(rec.t, 2000);
    assert_eq!(rec.p, Vec3::new(0, 500, -2000));
    assert!(!rec.front_face);
    assert_eq!(rec.normal, Vec3::new(0, -1000, 0));
}

#[test]
fn ray_at_interpolates() {
    let r = Ray::new(Vec3::new(1000, 2000, 3000), Vec3::new(100, -200, 4000));
    let p = r.at(500);
    assert_eq!(p, Vec3::new(1050, 1900, 5000));
}

#[test]
fn sphere_hit_straight_on() {
    let s = Sphere::new(Vec3::new(0, 0, -1000), 500, grey_material());
    let r = Ray::new(Vec3::new(0, 0, 0), Vec3::new(0, 0, -1000));
    let rec = s.hit(&r, T_EPS, T_CAP).expect("the sphere is straight ahead");
    assert_eq!(rec.t, 500);
    assert_eq!(rec.p, Vec3::new(0, 0, -500));
    assert_eq!(rec.normal, Vec3::new(0, 0, 1000));
    assert!(rec.front_face);
}

#[test]
fn sphere_hit_through_center_roots_symmetric_unit_normal() {
    // A ray through the center: the near root is at 0.5, the far root at
    // 1.5, symmetric about -half_b/a = 1.0; the reported normal has unit
    // length exactly and points outward (toward the ray origin).
    let s = Sphere::new(Vec3::new(0, 0, -1000), 500, grey_material());
    let r = Ray::new(Vec3::new(0, 0, 0), Vec3::new(0, 0, -1000));
    let near = s.hit(&r, T_EPS, T_CAP).expect("near root");
    assert_eq!(near.t, 500);
    let far = s.hit(&r, near.t + 1, T_CAP).expect("far root");
    assert_eq!(far.t, 1500);
    assert_eq!(near.t + far.t, 2 * 1000);
    let n = near.normal;
    let len_sq = n.x * n.x / SCALE + n.y * n.y / SCALE + n.z * n.z / SCALE;
    assert_eq!(len_sq, SCALE);
    // Outward: from the center toward the hit point.
    assert!(n.z > 0);
    assert!(near.front_face);
}

#[test]
fn sphere_hit_from_inside_picks_far_root_and_flips_normal() {
    let s = Sphere::new(Vec3::new(0, 0, -1000), 500, grey_material());
    let r = Ray::new(Vec3::new(0, 0, -1000), Vec3::new(0, 0, -1000));
    let rec = s.hit(&r, T_EPS, T_CAP).expect("hit from inside");
    assert_eq!(rec.t, 500);
    assert_eq!(rec.p, Vec3::new(0, 0, -1500));
    assert!(!rec.front_face);
    assert_eq!(rec.normal, Vec3::new(0, 0, 1000));
}

#[test]
fn sphere_behind_ray_yields_no_hit() {
    // Both roots are negative: the sphere sits entirely behind the origin.
    let s = Sphere::new(Vec3::new(0, 0, 1000), 500, grey_material());
    let r = Ray::new(Vec3::new(0, 0, 0), Vec3::new(0, 0, -1000));
    assert!(s.hit(&r, 0, T_CAP).is_none());
}

#[test]
fn face_normal_always_opposes_ray() {
    let r = Ray::new(Vec3::new(0, 0, 0), Vec3::new(0, 0, -1000));
    let front = HitRecord::with_face_normal(
        Vec3::new(0, 0, -500),
        Vec3::new(0, 0, 1000),
        500,
        &r,
        grey_material(),
    );
    assert!(front.front_face);
    assert_eq!(front.normal, Vec3::new(0, 0, 1000));
    let back = HitRecord::with_face_normal(
        Vec3::new(0, 0, -500),
        Vec3::new(0, 0, -1000),
        500,
        &r,
        grey_material(),
    );
    assert!(!back.front_face);
    assert_eq!(back.normal, Vec3::new(0, 0, 1000));
    for rec in [front, back] {
        let d = r.direction;
        let n = rec.normal;
        let dot = d.x * n.x / SCALE + d.y * n.y / SCALE + d.z * n.z / SCALE;
        assert!(dot <= 0);
    }
}

#[test]
fn nearest_hit_is_insertion_order_independent() {
    let near_albedo = Vec3::new(111, 222, 333);
    let far_albedo = Vec3::new(900, 800, 700);
    let near_sphere = || {
        Hittable::Sphere(Sphere::new(
            Vec3::new(0, 0, -1000),
            500,
            Material::Lambertian(Lambertian::new(near_albedo)),
        ))
    };
    let far_sphere = || {
        Hittable::Sphere(Sphere::new(
            Vec3::new(0, 0, -3000),
            500,
            Material::Lambertian(Lambertian::new(far_albedo)),
        ))
    };
    let r = Ray::new(Vec3::new(0, 0, 0), Vec3::new(0, 0, -1000));
    let unit = Vec3::new(0, 0, 1000);
    for order in 0..2 {
        let mut world = HittableList::new();
        if order == 0 {
            world.add(near_sphere());
            world.add(far_sphere());
        } else {
            world.add(far_sphere());
            world.add(near_sphere());
        }
        let rec = world.hit(&r, T_EPS, T_CAP).expect("two spheres ahead");
        assert_eq!(rec.t, 500);
        let (_, attenuation) = rec
            .material
            .scatter(&r, &rec, &unit)
            .expect("a Lambertian always scatters");
        assert_eq!(attenuation, near_albedo);
    }
}

#[test]
fn nearest_hit_is_order_independent_for_three_spheres() {
    let sphere_at = |z: i64| {
        Hittable::Sphere(Sphere::new(
            Vec3::new(0, 0, z),
            500,
            grey_material(),
        ))
    };
    let r = Ray::new(Vec3::new(0, 0, 0), Vec3::new(0, 0, -1000));
    let depths = [-1000i64, -3000, -5000];
    let orders: [[usize; 3]; 3] = [[0, 1, 2], [2, 1, 0], [1, 2, 0]];
    for order in orders {
        let mut world = HittableList::new();
        for k in order {
            world.add(sphere_at(depths[k]));
        }
        let rec = world.hit(&r, T_EPS, T_CAP).expect("three spheres ahead");
        assert_eq!(rec.t, 500);
        assert_eq!(rec.p, Vec3::new(0, 0, -500));
    }
}

#[test]
fn cleared_scene_reports_no_hit() {
    let mut world = one_sphere_world();
    let r = Ray::new(Vec3::new(0, 0, 0), Vec3::new(0, 0, -1000));
    assert!(world.hit(&r, T_EPS, T_CAP).is_some());
    world.clear();
    assert!(world.hit(&r, T_EPS, T_CAP).is_none());
}

#[test]
fn lambertian_scatter_adds_unit_to_normal() {
    let r = Ray::new(Vec3::new(0, 0, 0), Vec3::new(0, 0, -1000));
    let s = Sphere::new(Vec3::new(0, 0, -1000), 500, grey_material());
    let rec = s.hit(&r, T_EPS, T_CAP).expect("hit");
    let unit = Vec3::new(1000, 0, 0);
    let (scattered, attenuation) = rec
        .material
        .scatter(&r, &rec, &unit)
        .expect("a Lambertian always scatters");
    assert_eq!(scattered.origin, rec.p);
    assert_eq!(scattered.direction, Vec3::new(1000, 0, 1000));
    assert_eq!(attenuation, Vec3::new(500, 500, 500));
}

#[test]
fn lambertian_degenerate_sample_falls_back_to_normal() {
    let r = Ray::new(Vec3::new(0, 0, 0), Vec3::new(0, 0, -1000));
    let s = Sphere::new(Vec3::new(0, 0, -1000), 500, grey_material());
    let rec = s.hit(&r, T_EPS, T_CAP).expect("hit");
    let unit = Vec3::new(0, 0, -1000);
    let (scattered, _) = rec
        .material
        .scatter(&r, &rec, &unit)
        .expect("a Lambertian always scatters");
    assert_eq!(scattered.direction, rec.normal);
}

#[test]
fn colour_depth_zero_is_black() {
    let world = one_sphere_world();
    let r = Ray::new(Vec3::new(0, 0, 0), Vec3::new(0, 0, -1000));
    let units: Vec<Vec3> = Vec::new();
    assert_eq!(r.colour(0, &world, &units, 0), Vec3::new(0, 0, 0));
    let empty = HittableList::new();
    let r2 = Ray::new(Vec3::new(7, -7, 7), Vec3::new(0, 1000, 0));
    assert_eq!(r2.colour(0, &empty, &units, 0), Vec3::new(0, 0, 0));
}

#[test]
fn background_boundaries_white_and_sky() {
    // Straight down: remapped vertical component 0 gives pure white.
    let down = Ray::new(Vec3::new(0, 0, 0), Vec3::new(0, -1000, 0));
    assert_eq!(down.background(), Vec3::new(1000, 1000, 1000));
    // Straight up: remapped vertical component 1 gives sky blue.
    let up = Ray::new(Vec3::new(0, 0, 0), Vec3::new(0, 1000, 0));
    assert_eq!(up.background(), Vec3::new(500, 700, 1000));
    // A horizontal ray sits exactly in the middle of the gradient.
    let level = Ray::new(Vec3::new(0, 0, 0), Vec3::new(0, 0, -2000));
    assert_eq!(level.background(), Vec3::new(750, 850, 1000));
}

#[test]
fn colour_on_miss_is_background() {
    let world = one_sphere_world();
    let up = Ray::new(Vec3::new(0, 0, 0), Vec3::new(0, 1000, 0));
    let units = vec![Vec3::new(0, 0, 1000)];
    assert_eq!(up.colour(1, &world, &units, 0), Vec3::new(500, 700, 1000));
}

#[test]
fn colour_depth_one_terminates_black_on_hit() {
    // Depth 1: the first bounce recurses at depth 0, which is black, so
    // the attenuated result is exactly black.
    let world = one_sphere_world();
    let r = Ray::new(Vec3::new(0, 0, 0), Vec3::new(0, 0, -1000));
    let units = vec![Vec3::new(0, 0, 1000)];
    assert_eq!(r.colour(1, &world, &units, 0), Vec3::new(0, 0, 0));
}

#[test]
fn colour_depth_two_is_half_the_scattered_colour() {
    // The grey sphere is struck at (0, 0, -0.5); with the sampled unit
    // vector pointing up the z axis, the bounce ray (direction (0,0,2))
    // escapes and sees the mid-gradient background (750, 850, 1000),
    // which the albedo halves (truncating): strictly between black and
    // the unobstructed background.
    let world = one_sphere_world();
    let r = Ray::new(Vec3::new(0, 0, 0), Vec3::new(0, 0, -1000));
    let units = vec![Vec3::new(0, 0, 1000), Vec3::new(0, 0, 1000)];
    let c = r.colour(2, &world, &units, 0);
    assert_eq!(c, Vec3::new(375, 425, 500));
    let background = Vec3::new(750, 850, 1000);
    for (ch, bg) in [(c.x, background.x), (c.y, background.y), (c.z, background.z)] {
        assert!(0 < ch && ch < bg);
    }
}
