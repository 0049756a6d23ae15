//! Checks of the random vector helpers, run against the real
//! pseudo-random source.

use raytracer::fixed::{SCALE, UNIT_SQ_MAX, UNIT_SQ_MIN};
use raytracer::helpers::{
    random_in_range, random_in_unit_sphere, random_on_hemisphere, random_unit_vector,
    random_unit_vectors,
};
use raytracer::vec3::Vec3;

fn dot_fx(a: &Vec3, b: &Vec3) -> i64 {
    let tx = (a.x as i128 * b.x as i128) / (SCALE as i128);
    let ty = (a.y as i128 * b.y as i128) / (SCALE as i128);
    let tz = (a.z as i128 * b.z as i128) / (SCALE as i128);
    (tx + ty + tz) as i64
}

#[test]
fn random_in_range_stays_in_range() {
    for _ in 0..200 {
        let v = random_in_range(-250, 750);
        assert!(-250 <= v.x && v.x < 750);
        assert!(-250 <= v.y && v.y < 750);
        assert!(-250 <= v.z && v.z < 750);
    }
}

#[test]
fn random_in_unit_sphere_has_short_length() {
    for _ in 0..200 {
        let v = random_in_unit_sphere();
        assert!(dot_fx(&v, &v) < SCALE);
        assert!(-SCALE < v.x && v.x < SCALE);
        assert!(-SCALE < v.y && v.y < SCALE);
        assert!(-SCALE < v.z && v.z < SCALE);
    }
}

#[test]
fn random_unit_vector_has_near_unit_length() {
    for _ in 0..200 {
        let v = random_unit_vector();
        let sq = dot_fx(&v, &v);
        assert!(UNIT_SQ_MIN <= sq && sq <= UNIT_SQ_MAX);
        assert!(v.x.abs() <= 2 * SCALE);
        assert!(v.y.abs() <= 2 * SCALE);
        assert!(v.z.abs() <= 2 * SCALE);
    }
}

#[test]
fn random_on_hemisphere_never_opposes_normal() {
    let normal = Vec3::new(0, 0, 1000);
    for _ in 0..200 {
        let v = random_on_hemisphere(&normal);
        assert!(dot_fx(&v, &normal) >= 0);
        let sq = dot_fx(&v, &v);
        assert!(UNIT_SQ_MIN <= sq && sq <= UNIT_SQ_MAX);
    }
}

#[test]
fn random_unit_vectors_counts_and_lengths() {
    let v = random_unit_vectors(7);
    assert_eq!(v.len(), 7);
    for u in &v {
        let sq = dot_fx(u, u);
        assert!(UNIT_SQ_MIN <= sq && sq <= UNIT_SQ_MAX);
    }
    let none = random_unit_vectors(0);
    assert!(none.is_empty());
}
