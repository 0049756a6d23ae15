//! The hit-testing capability: hit records with oriented normals, the
//! dispatch over concrete primitives, and the scene aggregate with its
//! nearest-hit resolution.

use vstd::prelude::*;
use crate::fixed::T_CAP;
use crate::vec3::{V3, Vec3, vneg, vdot, norm_ok};
use crate::fixed::lemma_fxm_neg;
use crate::ray::{Ray, RayS, ray_in_world};
use crate::materials::{Material, MatS, mat_wf};
use crate::shapes::{Sphere, SphereS, sphere_wf, spec_sphere_hit};
use crate::shapes::{lemma_sphere_hit_narrow, lemma_sphere_hit_tightened_none,
    lemma_sphere_hit_widen};
use vstd::seq_lib::group_to_multiset_ensures;

verus! {

/// Spec-level hit record.
pub ghost struct HitRecS {
    pub p: V3,
    pub normal: V3,
    pub t: int,
    pub front_face: bool,
    pub material: MatS,
}

/// Whether the ray struck the outward-facing side: its direction and the
/// outward normal point against each other.
pub open spec fn spec_front_face(r: RayS, outward: V3) -> bool {
    vdot(r.dir, outward) < 0
}

/// The stored normal: the outward normal, flipped on back-face hits so
/// that it always opposes the incoming ray direction.
pub open spec fn spec_face_normal(r: RayS, outward: V3) -> V3 {
    if spec_front_face(r, outward) {
        outward
    } else {
        vneg(outward)
    }
}

/// The front/back-face invariant: whatever the ray and outward normal,
/// the stored normal never points with the incoming ray.
pub proof fn lemma_stored_normal_opposes(r: RayS, outward: V3)
    ensures
        vdot(r.dir, spec_face_normal(r, outward)) <= 0,
{
    if !spec_front_face(r, outward) {
        lemma_fxm_neg(r.dir.x, outward.x);
        lemma_fxm_neg(r.dir.y, outward.y);
        lemma_fxm_neg(r.dir.z, outward.z);
        assert(vdot(r.dir, vneg(outward)) == -vdot(r.dir, outward));
    }
}

/// Result of an intersection test: hit point, oriented unit-scale
/// normal, ray parameter, which face was struck, and the material at
/// that point.
#[derive(Clone, Copy)]
pub struct HitRecord {
    pub p: Vec3,
    pub normal: Vec3,
    pub t: i64,
    pub front_face: bool,
    pub material: Material,
}

impl View for HitRecord {
    type V = HitRecS;

    open spec fn view(&self) -> HitRecS {
        HitRecS {
            p: self.p@,
            normal: self.normal@,
            t: self.t as int,
            front_face: self.front_face,
            material: self.material@,
        }
    }
}

impl HitRecord {
    /// Builds a record from a raw outward-facing normal, classifying the
    /// struck face and flipping the stored normal on back-face hits.
    pub fn with_face_normal(p: Vec3, outward_normal: Vec3, t: i64, r: &Ray, material: Material)
        -> (rec: HitRecord)
        requires
            outward_normal.x > i64::MIN,
            outward_normal.y > i64::MIN,
            outward_normal.z > i64::MIN,
        ensures
            rec@ == (HitRecS {
                p: p@,
                normal: spec_face_normal(r@, outward_normal@),
                t: t as int,
                front_face: spec_front_face(r@, outward_normal@),
                material: material@,
            }),
    {
        let d: i128 = r.direction.dot_wide(&outward_normal);
        let front_face = d < 0;
        HitRecord {
            p,
            normal: if front_face {
                outward_normal
            } else {
                outward_normal.neg()
            },
            t,
            front_face,
            material,
        }
    }
}

/// A geometric primitive that can be hit-tested, tagged by its concrete
/// kind.
pub enum Hittable {
    Sphere(Sphere),
}

/// Well-formedness of a primitive: its geometry lies in the accepted
/// world window.
pub open spec fn hittable_wf(h: Hittable) -> bool {
    match h {
        Hittable::Sphere(s) => sphere_wf(s@),
    }
}

/// Spec-level intersection of a single primitive.
pub open spec fn spec_hittable_hit(h: Hittable, r: RayS, t_min: int, t_max: int)
    -> Option<HitRecS> {
    match h {
        Hittable::Sphere(s) => spec_sphere_hit(s@, r, t_min, t_max),
    }
}

impl Hittable {
    /// Intersection test, dispatched to the concrete primitive.
    pub fn hit(&self, r: &Ray, t_min: i64, t_max: i64) -> (res: Option<HitRecord>)
        requires
            hittable_wf(*self),
            ray_in_world(r@),
            0 <= t_min,
            t_max <= T_CAP,
        ensures
            match res {
                Some(rec) => {
                    &&& spec_hittable_hit(*self, r@, t_min as int, t_max as int) == Some(rec@)
                    &&& norm_ok(rec@.normal)
                    &&& mat_wf(rec@.material)
                    &&& t_min < rec@.t < t_max
                },
                None => spec_hittable_hit(*self, r@, t_min as int, t_max as int) is None,
            },
    {
        match self {
            Hittable::Sphere(s) => s.hit(r, t_min, t_max),
        }
    }
}

/// Nearest-hit resolution over a suffix of the object list, carried out
/// with a shrinking search interval: `closest` is the best parameter
/// found so far and `best` the record it belongs to.
pub open spec fn spec_hit_from(
    objs: Seq<Hittable>,
    i: int,
    r: RayS,
    t_min: int,
    closest: int,
    best: Option<HitRecS>,
) -> Option<HitRecS>
    decreases objs.len() - i,
{
    if i < 0 || i >= objs.len() {
        best
    } else {
        match spec_hittable_hit(objs[i], r, t_min, closest) {
            Some(rec) => spec_hit_from(objs, i + 1, r, t_min, rec.t, Some(rec)),
            None => spec_hit_from(objs, i + 1, r, t_min, closest, best),
        }
    }
}

/// Nearest hit over the whole scene: the record with the smallest `t`
/// among all objects that report a hit inside `(t_min, t_max)`.
pub open spec fn spec_list_hit(objs: Seq<Hittable>, r: RayS, t_min: int, t_max: int)
    -> Option<HitRecS> {
    spec_hit_from(objs, 0, r, t_min, t_max, None)
}

/// Nearest-hit correctness for two objects along one ray: whichever
/// order they are inserted in, the scene reports the record of the
/// geometrically closer hit.
pub proof fn lemma_nearest_hit_order_independent(
    h1: Hittable,
    h2: Hittable,
    r: RayS,
    t_min: int,
    t_max: int,
)
    requires
        spec_hittable_hit(h1, r, t_min, t_max) is Some,
        spec_hittable_hit(h2, r, t_min, t_max) is Some,
        spec_hittable_hit(h1, r, t_min, t_max)->Some_0.t
            < spec_hittable_hit(h2, r, t_min, t_max)->Some_0.t,
    ensures
        spec_list_hit(seq![h1, h2], r, t_min, t_max) == spec_hittable_hit(h1, r, t_min, t_max),
        spec_list_hit(seq![h2, h1], r, t_min, t_max) == spec_hittable_hit(h1, r, t_min, t_max),
{
    let rec1 = spec_hittable_hit(h1, r, t_min, t_max)->Some_0;
    let rec2 = spec_hittable_hit(h2, r, t_min, t_max)->Some_0;
    let s1 = match h1 {
        Hittable::Sphere(s) => s@,
    };
    let s2 = match h2 {
        Hittable::Sphere(s) => s@,
    };
    assert(t_min < rec1.t < t_max);
    assert(t_min < rec2.t < t_max);
    let a = seq![h1, h2];
    assert(a[0] == h1 && a[1] == h2 && a.len() == 2);
    lemma_sphere_hit_tightened_none(s2, r, t_min, t_max, rec1.t);
    assert(spec_hittable_hit(h2, r, t_min, rec1.t) is None);
    assert(spec_hit_from(a, 2, r, t_min, rec1.t, Some(rec1)) == Some(rec1));
    assert(spec_hit_from(a, 1, r, t_min, rec1.t, Some(rec1)) == Some(rec1));
    let b = seq![h2, h1];
    assert(b[0] == h2 && b[1] == h1 && b.len() == 2);
    lemma_sphere_hit_narrow(s1, r, t_min, t_max, rec2.t);
    assert(spec_hittable_hit(h1, r, t_min, rec2.t) == Some(rec1));
    assert(spec_hit_from(b, 2, r, t_min, rec1.t, Some(rec1)) == Some(rec1));
    assert(spec_hit_from(b, 1, r, t_min, rec2.t, Some(rec2))
        == spec_hit_from(b, 2, r, t_min, rec1.t, Some(rec1)));
}

/// Narrowing the search interval acts as a filter on the full-interval
/// hit: the narrowed test reports exactly the full hit when its
/// parameter lies below the cut, and nothing otherwise.
proof fn lemma_hittable_filter(h: Hittable, r: RayS, t_min: int, t_cut: int, t_max: int)
    requires
        t_cut <= t_max,
    ensures
        spec_hittable_hit(h, r, t_min, t_cut) == (
        if spec_hittable_hit(h, r, t_min, t_max) is Some && spec_hittable_hit(
            h,
            r,
            t_min,
            t_max,
        )->Some_0.t < t_cut {
            spec_hittable_hit(h, r, t_min, t_max)
        } else {
            None
        }),
{
    let s = match h {
        Hittable::Sphere(s) => s@,
    };
    match spec_sphere_hit(s, r, t_min, t_max) {
        Some(rec) => {
            if rec.t < t_cut {
                lemma_sphere_hit_narrow(s, r, t_min, t_max, t_cut);
            } else {
                lemma_sphere_hit_tightened_none(s, r, t_min, t_max, t_cut);
            }
        },
        None => {
            if spec_sphere_hit(s, r, t_min, t_cut) is Some {
                lemma_sphere_hit_widen(s, r, t_min, t_cut, t_max);
            }
        },
    }
}

/// The narrowing fold computes the minimum: its result is a hit some
/// object reports over the full interval, with the smallest parameter
/// among all of them — or nothing, when no object hits at all.
proof fn lemma_hit_from_minimal(
    objs: Seq<Hittable>,
    i: int,
    r: RayS,
    t_min: int,
    t_max: int,
    closest: int,
    best: Option<HitRecS>,
)
    requires
        0 <= i <= objs.len(),
        closest <= t_max,
        match best {
            None => closest == t_max && forall|j: int|
                0 <= j < i ==> #[trigger] spec_hittable_hit(objs[j], r, t_min, t_max) is None,
            Some(rec) => {
                &&& rec.t == closest
                &&& rec.t < t_max
                &&& exists|j: int|
                    0 <= j < i && #[trigger] spec_hittable_hit(objs[j], r, t_min, t_max) == Some(
                        rec,
                    )
                &&& forall|j: int|
                    0 <= j < i && #[trigger] spec_hittable_hit(objs[j], r, t_min, t_max) is Some
                        ==> spec_hittable_hit(objs[j], r, t_min, t_max)->Some_0.t >= rec.t
            },
        },
    ensures
        match spec_hit_from(objs, i, r, t_min, closest, best) {
            None => forall|j: int|
                0 <= j < objs.len() ==> #[trigger] spec_hittable_hit(objs[j], r, t_min, t_max)
                    is None,
            Some(rec) => {
                &&& exists|j: int|
                    0 <= j < objs.len() && #[trigger] spec_hittable_hit(objs[j], r, t_min, t_max)
                        == Some(rec)
                &&& forall|j: int|
                    0 <= j < objs.len() && #[trigger] spec_hittable_hit(objs[j], r, t_min, t_max)
                        is Some ==> spec_hittable_hit(objs[j], r, t_min, t_max)->Some_0.t >= rec.t
            },
        },
    decreases objs.len() - i,
{
    if i < objs.len() {
        lemma_hittable_filter(objs[i], r, t_min, closest, t_max);
        match spec_hittable_hit(objs[i], r, t_min, closest) {
            Some(rec2) => {
                assert(spec_hittable_hit(objs[i], r, t_min, t_max) == Some(rec2));
                lemma_hit_from_minimal(objs, i + 1, r, t_min, t_max, rec2.t, Some(rec2));
            },
            None => {
                lemma_hit_from_minimal(objs, i + 1, r, t_min, t_max, closest, best);
            },
        }
    }
}

/// Characterisation of the scene's nearest-hit resolution: the result
/// is exactly the full-interval hit of some object, minimal in `t`
/// among all objects that hit — or nothing, when none hits.
pub proof fn lemma_list_hit_minimal(objs: Seq<Hittable>, r: RayS, t_min: int, t_max: int)
    ensures
        match spec_list_hit(objs, r, t_min, t_max) {
            None => forall|j: int|
                0 <= j < objs.len() ==> #[trigger] spec_hittable_hit(objs[j], r, t_min, t_max)
                    is None,
            Some(rec) => {
                &&& exists|j: int|
                    0 <= j < objs.len() && #[trigger] spec_hittable_hit(objs[j], r, t_min, t_max)
                        == Some(rec)
                &&& forall|j: int|
                    0 <= j < objs.len() && #[trigger] spec_hittable_hit(objs[j], r, t_min, t_max)
                        is Some ==> spec_hittable_hit(objs[j], r, t_min, t_max)->Some_0.t >= rec.t
            },
        },
{
    lemma_hit_from_minimal(objs, 0, r, t_min, t_max, t_max, None);
}

/// Nearest-hit resolution is independent of insertion order in general:
/// two scenes holding the same objects, in any orders, report the same
/// hit, provided distinct objects hit at pairwise distinct parameters
/// (with a tie the fold picks the earlier object, so the record could
/// otherwise differ in its other fields).
pub proof fn lemma_nearest_hit_any_order(
    objs1: Seq<Hittable>,
    objs2: Seq<Hittable>,
    r: RayS,
    t_min: int,
    t_max: int,
)
    requires
        objs1.to_multiset() == objs2.to_multiset(),
        forall|i: int, j: int|
            0 <= i < objs1.len() && 0 <= j < objs1.len() && i != j && #[trigger] spec_hittable_hit(
                objs1[i],
                r,
                t_min,
                t_max,
            ) is Some && #[trigger] spec_hittable_hit(objs1[j], r, t_min, t_max) is Some
                ==> spec_hittable_hit(objs1[i], r, t_min, t_max)->Some_0.t != spec_hittable_hit(
                objs1[j],
                r,
                t_min,
                t_max,
            )->Some_0.t,
    ensures
        spec_list_hit(objs1, r, t_min, t_max) == spec_list_hit(objs2, r, t_min, t_max),
{
    broadcast use group_to_multiset_ensures;

    lemma_list_hit_minimal(objs1, r, t_min, t_max);
    lemma_list_hit_minimal(objs2, r, t_min, t_max);
    match spec_list_hit(objs1, r, t_min, t_max) {
        None => {
            if spec_list_hit(objs2, r, t_min, t_max) is Some {
                let rec2 = spec_list_hit(objs2, r, t_min, t_max)->Some_0;
                let j2 = choose|j: int|
                    0 <= j < objs2.len() && #[trigger] spec_hittable_hit(objs2[j], r, t_min, t_max)
                        == Some(rec2);
                let h = objs2[j2];
                assert(objs2.contains(h));
                assert(objs2.to_multiset().count(h) > 0);
                assert(objs1.to_multiset().count(h) > 0);
                assert(objs1.contains(h));
                let k = choose|k: int| 0 <= k < objs1.len() && objs1[k] == h;
                assert(spec_hittable_hit(objs1[k], r, t_min, t_max) is None);
                assert(false);
            }
        },
        Some(rec1) => {
            let i1 = choose|j: int|
                0 <= j < objs1.len() && #[trigger] spec_hittable_hit(objs1[j], r, t_min, t_max)
                    == Some(rec1);
            let h1 = objs1[i1];
            assert(objs1.contains(h1));
            assert(objs1.to_multiset().count(h1) > 0);
            assert(objs2.to_multiset().count(h1) > 0);
            assert(objs2.contains(h1));
            let k1 = choose|k: int| 0 <= k < objs2.len() && objs2[k] == h1;
            assert(spec_hittable_hit(objs2[k1], r, t_min, t_max) == Some(rec1));
            match spec_list_hit(objs2, r, t_min, t_max) {
                None => {
                    assert(false);
                },
                Some(rec2) => {
                    assert(rec2.t <= rec1.t);
                    let j2 = choose|j: int|
                        0 <= j < objs2.len() && #[trigger] spec_hittable_hit(
                            objs2[j],
                            r,
                            t_min,
                            t_max,
                        ) == Some(rec2);
                    let h2 = objs2[j2];
                    assert(objs2.contains(h2));
                    assert(objs2.to_multiset().count(h2) > 0);
                    assert(objs1.to_multiset().count(h2) > 0);
                    assert(objs1.contains(h2));
                    let m = choose|k: int| 0 <= k < objs1.len() && objs1[k] == h2;
                    assert(spec_hittable_hit(objs1[m], r, t_min, t_max) == Some(rec2));
                    assert(rec1.t <= rec2.t);
                    if i1 != m {
                        assert(rec1.t != rec2.t);
                        assert(false);
                    }
                    assert(rec1 == rec2);
                },
            }
        },
    }
}

/// Every object of the list is well formed.
pub open spec fn list_wf(objs: Seq<Hittable>) -> bool {
    forall|i: int| 0 <= i < objs.len() ==> hittable_wf(#[trigger] objs[i])
}

/// An ordered collection of primitives, each exclusively owned by the
/// scene; itself hit-testable like a single object.
pub struct HittableList {
    objects: Vec<Hittable>,
}

impl View for HittableList {
    type V = Seq<Hittable>;

    closed spec fn view(&self) -> Seq<Hittable> {
        self.objects@
    }
}

impl HittableList {
    /// An empty scene.
    pub fn new() -> (r: HittableList)
        ensures
            r@.len() == 0,
    {
        HittableList { objects: Vec::new() }
    }

    /// Releases every owned object at once.
    pub fn clear(&mut self)
        ensures
            final(self)@.len() == 0,
    {
        self.objects = Vec::new();
    }

    /// Takes ownership of one more object.
    pub fn add(&mut self, object: Hittable)
        requires
            hittable_wf(object),
        ensures
            final(self)@ == old(self)@.push(object),
    {
        self.objects.push(object);
    }

    /// Whole-scene hit test: folds over the objects while narrowing the
    /// upper bound of the search interval to the best parameter found so
    /// far, so the returned record is the nearest hit, independent of
    /// insertion order.
    pub fn hit(&self, r: &Ray, t_min: i64, t_max: i64) -> (res: Option<HitRecord>)
        requires
            list_wf(self@),
            ray_in_world(r@),
            0 <= t_min,
            t_max <= T_CAP,
        ensures
            match res {
                Some(rec) => {
                    &&& spec_list_hit(self@, r@, t_min as int, t_max as int) == Some(rec@)
                    &&& norm_ok(rec@.normal)
                    &&& mat_wf(rec@.material)
                    &&& t_min < rec@.t < t_max
                },
                None => spec_list_hit(self@, r@, t_min as int, t_max as int) is None,
            },
    {
        let mut closest: i64 = t_max;
        let mut best: Option<HitRecord> = None;
        let n: usize = self.objects.len();
        let mut i: usize = 0;
        while i < n
            invariant
                n == self.objects.len(),
                0 <= i <= n,
                list_wf(self@),
                ray_in_world(r@),
                0 <= t_min,
                t_max <= T_CAP,
                closest <= t_max,
                match best {
                    Some(rec) => {
                        &&& norm_ok(rec@.normal)
                        &&& mat_wf(rec@.material)
                        &&& t_min < rec@.t < t_max
                        &&& rec@.t == closest
                    },
                    None => closest == t_max,
                },
                spec_list_hit(self@, r@, t_min as int, t_max as int) == spec_hit_from(
                    self@,
                    i as int,
                    r@,
                    t_min as int,
                    closest as int,
                    match best {
                        Some(rec) => Some(rec@),
                        None => None::<HitRecS>,
                    },
                ),
            decreases n - i,
        {
            let obj = &self.objects[i];
            match obj.hit(r, t_min, closest) {
                Some(rec) => {
                    closest = rec.t;
                    best = Some(rec);
                },
                None => {},
            }
            i = i + 1;
        }
        best
    }
}

} // verus!
