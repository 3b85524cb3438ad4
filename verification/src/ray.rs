//! Rays, intersection records, and the scene container.

use vstd::prelude::*;
use crate::material::Material;
use crate::point::{COORD_BOUND, Point3, Vec3i, Vector3};
use crate::sphere::Sphere;
use crate::torus::{TORUS_BOUND, Torus};

verus! {

/// Half-line through `origin` along `direction`, parameterized by `t`.
#[derive(Debug, Clone, Copy, PartialEq, Eq, Structural)]
pub struct Ray {
    pub origin: Point3,
    pub direction: Vector3,
}

impl Ray {
    pub open spec fn in_bounds(self) -> bool {
        self.origin.in_bounds() && self.direction.in_bounds()
    }

    /// The point reached at parameter `t`.
    pub open spec fn spec_at(self, t: int) -> Vec3i {
        self.origin@.add(self.direction@.scale(t))
    }

    pub fn at(&self, t: i64) -> (p: Vector3)
        requires
            self.in_bounds(),
            -COORD_BOUND <= t <= COORD_BOUND,
        ensures
            p@ == self.spec_at(t as int),
    {
        let d = self.direction.mul(t);
        proof {
            crate::point::lemma_mul_bound(t as int, self.direction.x as int, COORD_BOUND as int,
                COORD_BOUND as int);
            crate::point::lemma_mul_bound(t as int, self.direction.y as int, COORD_BOUND as int,
                COORD_BOUND as int);
            crate::point::lemma_mul_bound(t as int, self.direction.z as int, COORD_BOUND as int,
                COORD_BOUND as int);
        }
        self.origin.add(d)
    }
}

/// A successful intersection: the hit point, the reported normal (an exact
/// direction vector, unnormalized, always opposing the incoming ray), the ray
/// parameter, and whether the geometric outward normal already faced the ray.
#[derive(Debug, Clone, Copy, PartialEq, Eq, Structural)]
pub struct HitRecord {
    pub point: Point3,
    pub normal: Vector3,
    pub t: i64,
    pub front_face: bool,
}

impl HitRecord {
    pub fn new(point: Point3, normal: Vector3, t: i64, front_face: bool) -> (r: HitRecord)
        ensures
            r == (HitRecord { point, normal, t, front_face }),
    {
        HitRecord { point, normal, t, front_face }
    }
}

/// Closed set of surface variants; each owns its geometry and its material.
/// Dispatch is an explicit match, so a scene mixes variants freely.
#[derive(Clone, Copy)]
pub enum Surface {
    Sphere(Sphere),
    Torus(Torus),
}

impl Surface {
    pub open spec fn wf(self) -> bool {
        match self {
            Surface::Sphere(s) => s.wf(),
            Surface::Torus(t) => t.wf(),
        }
    }

    /// The ray data this variant's exact arithmetic admits.
    pub open spec fn ray_ok(self, ray: Ray) -> bool {
        match self {
            Surface::Sphere(_) => ray.in_bounds(),
            Surface::Torus(_) => Torus::ray_fits(ray),
        }
    }

    /// The window bounds this variant's exact arithmetic admits.
    pub open spec fn window_ok(self, t: int) -> bool {
        match self {
            Surface::Sphere(_) => -COORD_BOUND <= t <= COORD_BOUND,
            Surface::Torus(_) => -TORUS_BOUND <= t <= TORUS_BOUND,
        }
    }

    pub open spec fn spec_material(self) -> Material {
        match self {
            Surface::Sphere(s) => s.material,
            Surface::Torus(t) => t.material,
        }
    }

    /// The surface is met within the window: decided exactly for a sphere;
    /// for a torus, by the supplied real roots of its quartic.
    pub open spec fn spec_hits(self, ray: Ray, roots: Seq<i64>, t0: int, t1: int) -> bool {
        match self {
            Surface::Sphere(s) => s.spec_hits(ray, t0, t1),
            Surface::Torus(t) => t.spec_hits(roots, t0, t1),
        }
    }

    /// Full functional description of the record a hit returns, per variant.
    pub open spec fn record_ok(
        self,
        ray: Ray,
        roots: Seq<i64>,
        t0: int,
        t1: int,
        rec: HitRecord,
    ) -> bool {
        match self {
            Surface::Sphere(s) => s.record_matches(ray, t0, t1, rec) && t0 <= rec.t <= t1,
            Surface::Torus(t) => t.record_matches(ray, roots, t0, t1, rec),
        }
    }

    /// No hit of this surface within the window comes before parameter `t`.
    pub open spec fn none_nearer(
        self,
        ray: Ray,
        roots: Seq<i64>,
        t0: int,
        t1: int,
        t: int,
    ) -> bool {
        match self {
            Surface::Sphere(s) => s.spec_hits(ray, t0, t1) ==> t <= s.model_t(ray, t0, t1),
            Surface::Torus(_) => forall|i: int|
                0 <= i < roots.len() && t0 < #[trigger] roots[i] < t1 ==> t <= roots[i],
        }
    }

    /// Nearest intersection of the ray with this surface inside
    /// `[t_min, t_max]` (the torus window is open). A sphere's roots are
    /// computed exactly; a torus's quartic roots are isolated by a numeric
    /// solver outside the kernel and supplied in `quartic_roots` (ignored
    /// for a sphere).
    pub fn hit(&self, ray: &Ray, quartic_roots: &Vec<i64>, t_min: i64, t_max: i64) -> (res:
        Option<(HitRecord, Material)>)
        requires
            self.wf(),
            self.ray_ok(*ray),
            !ray.direction@.is_zero(),
            self.window_ok(t_min as int),
            self.window_ok(t_max as int),
        ensures
            res.is_some() == self.spec_hits(*ray, quartic_roots@, t_min as int, t_max as int),
            res matches Some((rec, m)) ==> {
                &&& self.record_ok(*ray, quartic_roots@, t_min as int, t_max as int, rec)
                &&& m == self.spec_material()
            },
    {
        match self {
            Surface::Sphere(s) => s.hit(ray, t_min, t_max),
            Surface::Torus(t) => t.hit_with_roots(ray, quartic_roots, t_min, t_max),
        }
    }
}

/// Ordered collection of owned surfaces; answers "nearest hit across all
/// surfaces".
pub struct HittableList {
    pub objects: Vec<Surface>,
}

pub fn new_hittable_list() -> (l: HittableList)
    ensures
        l.objects@.len() == 0,
{
    HittableList { objects: Vec::new() }
}

impl HittableList {
    pub fn new() -> (l: HittableList)
        ensures
            l.objects@.len() == 0,
    {
        HittableList { objects: Vec::new() }
    }

    pub fn add(&mut self, object: Surface)
        ensures
            final(self).objects@ == old(self).objects@.push(object),
    {
        self.objects.push(object);
    }

    /// Some surface in the scene hits the ray within the window.
    pub open spec fn spec_any_hit(self, ray: Ray, all_roots: Seq<Seq<i64>>, t0: int, t1: int) -> bool {
        exists|j: int|
            0 <= j < self.objects@.len() && (#[trigger] self.objects@[j]).spec_hits(
                ray,
                all_roots[j],
                t0,
                t1,
            )
    }

    /// Globally nearest valid hit across all surfaces within `[t_min, t_max]`,
    /// found by testing each surface in order while narrowing the upper bound
    /// to the closest parameter seen so far. The result is equivalent to
    /// taking the minimum-parameter result of testing every surface
    /// independently: some surface produces the returned record, and no
    /// surface hits the window at a smaller parameter. `torus_roots` holds,
    /// per surface, the solver-supplied real quartic roots (an entry is
    /// ignored for a sphere).
    pub fn hit(&self, ray: &Ray, torus_roots: &Vec<Vec<i64>>, t_min: i64, t_max: i64) -> (res:
        Option<(HitRecord, Material)>)
        requires
            torus_roots@.len() == self.objects@.len(),
            forall|j: int| 0 <= j < self.objects@.len() ==> (#[trigger] self.objects@[j]).wf(),
            forall|j: int|
                0 <= j < self.objects@.len() ==> (#[trigger] self.objects@[j]).ray_ok(*ray),
            forall|j: int|
                0 <= j < self.objects@.len() ==> (#[trigger] self.objects@[j]).window_ok(
                    t_min as int,
                ) && self.objects@[j].window_ok(t_max as int),
            !ray.direction@.is_zero(),
            -COORD_BOUND <= t_min <= COORD_BOUND,
            -COORD_BOUND <= t_max <= COORD_BOUND,
        ensures
            res.is_some() == self.spec_any_hit(
                *ray,
                torus_roots@.map_values(|v: Vec<i64>| v@),
                t_min as int,
                t_max as int,
            ),
            res matches Some((rec, m)) ==> exists|j: int|
                0 <= j < self.objects@.len() && (#[trigger] self.objects@[j]).spec_hits(
                    *ray,
                    torus_roots@[j]@,
                    t_min as int,
                    t_max as int,
                ) && self.objects@[j].record_ok(
                    *ray,
                    torus_roots@[j]@,
                    t_min as int,
                    t_max as int,
                    rec,
                ) && m == self.objects@[j].spec_material(),
            res matches Some((rec, m)) ==> forall|k: int|
                0 <= k < self.objects@.len() ==> (#[trigger] self.objects@[k]).none_nearer(
                    *ray,
                    torus_roots@[k]@,
                    t_min as int,
                    t_max as int,
                    rec.t as int,
                ),
    {
        let ghost ti0 = t_min as int;
        let ghost ti1 = t_max as int;
        let mut closest_so_far: i64 = t_max;
        let mut hit_record: Option<(HitRecord, Material)> = None;
        let n = self.objects.len();
        let mut i: usize = 0;
        while i < n
            invariant
                n == self.objects@.len(),
                torus_roots@.len() == self.objects@.len(),
                0 <= i <= n,
                ti0 == t_min as int,
                ti1 == t_max as int,
                !ray.direction@.is_zero(),
                -COORD_BOUND <= t_min <= COORD_BOUND,
                -COORD_BOUND <= t_max <= COORD_BOUND,
                forall|j: int| 0 <= j < self.objects@.len() ==> (#[trigger] self.objects@[j]).wf(),
                forall|j: int|
                    0 <= j < self.objects@.len() ==> (#[trigger] self.objects@[j]).ray_ok(*ray),
                forall|j: int|
                    0 <= j < self.objects@.len() ==> (#[trigger] self.objects@[j]).window_ok(ti0)
                        && self.objects@[j].window_ok(ti1),
                t_min <= closest_so_far <= t_max || closest_so_far == t_max,
                hit_record.is_none() ==> closest_so_far == t_max,
                hit_record.is_none() ==> forall|j: int|
                    0 <= j < i ==> !(#[trigger] self.objects@[j]).spec_hits(
                        *ray,
                        torus_roots@[j]@,
                        ti0,
                        ti1,
                    ),
                hit_record matches Some((rec, m)) ==> {
                    &&& rec.t == closest_so_far
                    &&& t_min <= rec.t <= t_max
                    &&& exists|j: int|
                        0 <= j < i && (#[trigger] self.objects@[j]).spec_hits(
                            *ray,
                            torus_roots@[j]@,
                            ti0,
                            ti1,
                        ) && self.objects@[j].record_ok(*ray, torus_roots@[j]@, ti0, ti1, rec)
                            && m == self.objects@[j].spec_material()
                    &&& forall|k: int|
                        0 <= k < i ==> (#[trigger] self.objects@[k]).none_nearer(
                            *ray,
                            torus_roots@[k]@,
                            ti0,
                            ti1,
                            rec.t as int,
                        )
                },
            decreases n - i,
        {
            let obj = self.objects[i];
            let ghost prev_closest = closest_so_far as int;
            proof {
                crate::point::lemma_norm2_nonneg(ray.direction@);
            }
            let r = obj.hit(ray, &torus_roots[i], t_min, closest_so_far);
            match r {
                Some((rec2, m2)) => {
                    proof {
                        match self.objects@[i as int] {
                            Surface::Sphere(s) => {
                                s.lemma_window_widen(*ray, ti0, prev_closest, ti1);
                            },
                            Surface::Torus(t) => {},
                        }
                    }
                    closest_so_far = rec2.t;
                    hit_record = Some((rec2, m2));
                },
                None => {
                    proof {
                        if hit_record.is_some() {
                            match self.objects@[i as int] {
                                Surface::Sphere(s) => {
                                    if s.spec_hits(*ray, ti0, ti1) {
                                        s.lemma_window_narrow_miss(*ray, ti0, prev_closest, ti1);
                                    }
                                },
                                Surface::Torus(t) => {},
                            }
                        }
                    }
                },
            }
            i = i + 1;
        }
        hit_record
    }
}

} // verus!
