//! Ray-torus intersection support, carried out exactly.
//!
//! The torus is axis-aligned (its axis along the world y axis, the ring in the
//! xz plane) with major radius `a` and minor radius `b`, centered at `center`:
//! its surface is `(|P|^2 + a^2 - b^2)^2 == 4 a^2 (Px^2 + Pz^2)` in
//! center-relative coordinates. Substituting the ray `P = V + t D` (with
//! `V = O - C`) yields a quartic in `t`; this module derives its coefficients
//! exactly and proves the expansion correct: the quartic evaluated at any
//! parameter equals the implicit surface expression at the corresponding ray
//! point.
//!
//! Isolating the real roots of the quartic is numeric work done outside the
//! kernel; the selection of the nearest root in the window, and the hit record
//! built from it, are verified here for every set of roots the solver may
//! hand back.

use vstd::prelude::*;
use crate::material::Material;
use crate::point::{Point3, Vec3i, Vector3, lemma_mul_bound};
use crate::ray::{HitRecord, Ray};

verus! {

/// Bound on torus geometry and ray data; keeps the degree-4 coefficient
/// arithmetic and the gradient products inside the machine integers.
pub const TORUS_BOUND: i64 = 512;

/// Axis-aligned torus (axis along y); owns its material.
#[derive(Debug, Clone, Copy)]
pub struct Torus {
    pub center: Point3,
    pub a: i64,
    pub b: i64,
    pub material: Material,
}

/// Coefficients of `a4 t^4 + a3 t^3 + a2 t^2 + a1 t + a0`.
#[derive(Debug, Clone, Copy, PartialEq, Eq, Structural)]
pub struct Quartic {
    pub a4: i128,
    pub a3: i128,
    pub a2: i128,
    pub a1: i128,
    pub a0: i128,
}

/// Mathematical value of a quartic: coefficients as unbounded integers.
pub ghost struct QuarticPoly {
    pub a4: int,
    pub a3: int,
    pub a2: int,
    pub a1: int,
    pub a0: int,
}

impl View for Quartic {
    type V = QuarticPoly;

    open spec fn view(&self) -> QuarticPoly {
        QuarticPoly {
            a4: self.a4 as int,
            a3: self.a3 as int,
            a2: self.a2 as int,
            a1: self.a1 as int,
            a0: self.a0 as int,
        }
    }
}

/// Value of the quartic at `t`.
pub open spec fn spec_quartic_eval(q: QuarticPoly, t: int) -> int {
    q.a4 * (t * t * t * t) + q.a3 * (t * t * t) + q.a2 * (t * t) + q.a1 * t + q.a0
}

impl Torus {
    pub open spec fn wf(self) -> bool {
        &&& -TORUS_BOUND <= self.center.x <= TORUS_BOUND
        &&& -TORUS_BOUND <= self.center.y <= TORUS_BOUND
        &&& -TORUS_BOUND <= self.center.z <= TORUS_BOUND
        &&& 0 <= self.a <= TORUS_BOUND
        &&& 0 <= self.b <= TORUS_BOUND
    }

    /// Ray data small enough for the torus arithmetic.
    pub open spec fn ray_fits(ray: Ray) -> bool {
        &&& -TORUS_BOUND <= ray.origin.x <= TORUS_BOUND
        &&& -TORUS_BOUND <= ray.origin.y <= TORUS_BOUND
        &&& -TORUS_BOUND <= ray.origin.z <= TORUS_BOUND
        &&& -TORUS_BOUND <= ray.direction.x <= TORUS_BOUND
        &&& -TORUS_BOUND <= ray.direction.y <= TORUS_BOUND
        &&& -TORUS_BOUND <= ray.direction.z <= TORUS_BOUND
    }

    /// Implicit surface expression at `p`, in the algebraically convenient
    /// form `(|P|^2 - a^2 - b^2)^2 - 4 a^2 (b^2 - Py^2)`; zero exactly on the
    /// surface. `lemma_implicit_is_surface_equation` relates it to the
    /// defining equation.
    pub open spec fn spec_implicit(self, p: Vec3i) -> int {
        let rel = p.sub(self.center@);
        let s2 = rel.norm2();
        let aa = self.a * self.a;
        let bb = self.b * self.b;
        (s2 - aa - bb) * (s2 - aa - bb) - 4 * aa * (bb - rel.y * rel.y)
    }

    /// The implicit expression equals the defining surface equation
    /// `(|P|^2 + a^2 - b^2)^2 - 4 a^2 (Px^2 + Pz^2)`.
    pub proof fn lemma_implicit_is_surface_equation(self, p: Vec3i)
        ensures
            self.spec_implicit(p) == ({
                let rel = p.sub(self.center@);
                let s2 = rel.norm2();
                let aa = self.a * self.a;
                let bb = self.b * self.b;
                (s2 + aa - bb) * (s2 + aa - bb) - 4 * aa * (rel.x * rel.x + rel.z * rel.z)
            }),
    {
        let rel = p.sub(self.center@);
        let s2 = rel.norm2();
        let aa = (self.a as int) * (self.a as int);
        let bb = (self.b as int) * (self.b as int);
        assert((s2 - aa - bb) * (s2 - aa - bb) - 4 * aa * (bb - rel.y * rel.y) == (s2 + aa - bb) * (
        s2 + aa - bb) - 4 * aa * (rel.x * rel.x + rel.z * rel.z)) by (nonlinear_arith)
            requires
                s2 == rel.x * rel.x + rel.y * rel.y + rel.z * rel.z,
        ;
    }

    /// Squared length of the ray direction.
    pub open spec fn tj(self, ray: Ray) -> int {
        ray.direction@.dot(ray.direction@)
    }

    /// `V . D` for the center-relative ray origin `V`.
    pub open spec fn tk(self, ray: Ray) -> int {
        ray.origin@.sub(self.center@).dot(ray.direction@)
    }

    /// `|V|^2 - a^2 - b^2`.
    pub open spec fn tl(self, ray: Ray) -> int {
        ray.origin@.sub(self.center@).norm2() - self.a * self.a - self.b * self.b
    }

    /// Exact quartic coefficients of the substituted ray.
    pub open spec fn spec_quartic(self, ray: Ray) -> QuarticPoly {
        let j = self.tj(ray);
        let k = self.tk(ray);
        let l = self.tl(ray);
        let aa = (self.a as int) * (self.a as int);
        let bb = (self.b as int) * (self.b as int);
        let vy = ray.origin@.y - self.center@.y;
        let dy = ray.direction@.y;
        QuarticPoly {
            a4: j * j,
            a3: 4 * j * k,
            a2: 2 * j * l + 4 * k * k + 4 * aa * (dy * dy),
            a1: 4 * k * l + 8 * aa * (vy * dy),
            a0: l * l - 4 * aa * bb + 4 * aa * (vy * vy),
        }
    }

    /// The quartic expansion is correct: at every parameter `t`, the quartic
    /// evaluates to the implicit surface expression at the ray point, so its
    /// real roots are exactly the ray parameters on the torus.
    /// The quartic expansion is correct: at every parameter `t`, the quartic
    /// evaluates to the implicit surface expression at the ray point, so its
    /// real roots are exactly the ray parameters on the torus.
    pub proof fn lemma_quartic_matches_surface(self, ray: Ray, t: int)
        ensures
            spec_quartic_eval(self.spec_quartic(ray), t) == self.spec_implicit(ray.spec_at(t)),
    {
        let vx = ray.origin@.x - self.center@.x;
        let vy = ray.origin@.y - self.center@.y;
        let vz = ray.origin@.z - self.center@.z;
        let dx = ray.direction@.x;
        let dy = ray.direction@.y;
        let dz = ray.direction@.z;
        let j = self.tj(ray);
        let k = self.tk(ray);
        let mm = ray.origin@.sub(self.center@).norm2();
        let l = self.tl(ray);
        let aa = (self.a as int) * (self.a as int);
        let bb = (self.b as int) * (self.b as int);
        let p = ray.spec_at(t);
        let rel = p.sub(self.center@);
        let t2 = t * t;
        let t3 = t * t * t;
        let t4 = t * t * t * t;
        assert(rel.x == vx + t * dx);
        assert(rel.y == vy + t * dy);
        assert(rel.z == vz + t * dz);
        // |P|^2 as a quadratic in t: expand each squared component, then
        // collect the coefficients.
        assert(rel.x * rel.x == vx * vx + 2 * (vx * dx) * t + (dx * dx) * t2) by (nonlinear_arith)
            requires
                rel.x == vx + t * dx,
                t2 == t * t,
        ;
        assert(rel.y * rel.y == vy * vy + 2 * (vy * dy) * t + (dy * dy) * t2) by (nonlinear_arith)
            requires
                rel.y == vy + t * dy,
                t2 == t * t,
        ;
        assert(rel.z * rel.z == vz * vz + 2 * (vz * dz) * t + (dz * dz) * t2) by (nonlinear_arith)
            requires
                rel.z == vz + t * dz,
                t2 == t * t,
        ;
        assert(j * t2 == (dx * dx) * t2 + (dy * dy) * t2 + (dz * dz) * t2) by (nonlinear_arith)
            requires
                j == dx * dx + dy * dy + dz * dz,
        ;
        assert(2 * k * t == 2 * (vx * dx) * t + 2 * (vy * dy) * t + 2 * (vz * dz) * t)
            by (nonlinear_arith)
            requires
                k == vx * dx + vy * dy + vz * dz,
        ;
        let s2 = rel.norm2();
        assert(s2 == j * t2 + 2 * k * t + mm);
        // The shifted quadratic whose square is the left half of the surface
        // expression.
        let qa = j * t2;
        let qb = 2 * k * t;
        let q2 = qa + qb + l;
        assert(s2 - aa - bb == q2);
        // Expand the square of the three-term sum, one product at a time.
        assert(q2 * q2 == qa * qa + qb * qb + l * l + 2 * (qa * qb) + 2 * (qa * l) + 2 * (qb * l))
            by (nonlinear_arith)
            requires
                q2 == qa + qb + l,
        ;
        assert(qa * qa == (j * j) * t4) by (nonlinear_arith)
            requires
                qa == j * t2,
                t2 == t * t,
                t4 == t * t * t * t,
        ;
        assert(2 * (qa * qb) == (4 * j * k) * t3) by (nonlinear_arith)
            requires
                qa == j * t2,
                qb == 2 * k * t,
                t2 == t * t,
                t3 == t * t * t,
        ;
        assert(qb * qb == (4 * k * k) * t2) by (nonlinear_arith)
            requires
                qb == 2 * k * t,
                t2 == t * t,
        ;
        assert(2 * (qa * l) == (2 * j * l) * t2) by (nonlinear_arith)
            requires
                qa == j * t2,
        ;
        assert(2 * (qb * l) == (4 * k * l) * t) by (nonlinear_arith)
            requires
                qb == 2 * k * t,
        ;
        // The right half: 4 a^2 (b^2 - Py^2), expanded in t.
        let g1 = vy * vy;
        let g2 = (vy * dy) * t;
        let g3 = (dy * dy) * t2;
        assert(2 * (vy * dy) * t == 2 * g2) by (nonlinear_arith)
            requires
                g2 == (vy * dy) * t,
        ;
        assert(4 * aa * (bb - rel.y * rel.y) == 4 * aa * bb - 4 * aa * g1 - 8 * aa * g2 - 4 * aa
            * g3) by (nonlinear_arith)
            requires
                rel.y * rel.y == g1 + 2 * g2 + g3,
        ;
        assert(8 * aa * g2 == (8 * aa * (vy * dy)) * t) by (nonlinear_arith)
            requires
                g2 == (vy * dy) * t,
        ;
        assert(4 * aa * g3 == (4 * aa * (dy * dy)) * t2) by (nonlinear_arith)
            requires
                g3 == (dy * dy) * t2,
        ;
        assert(4 * aa * (bb - rel.y * rel.y) == 4 * aa * bb - (4 * aa * (dy * dy)) * t2 - (8 * aa
            * (vy * dy)) * t - 4 * aa * (vy * vy));
        // Assemble: distribute the collected coefficients over the powers.
        let qq = self.spec_quartic(ray);
        assert(qq.a2 * t2 == (2 * j * l) * t2 + (4 * k * k) * t2 + (4 * aa * (dy * dy)) * t2)
            by (nonlinear_arith)
            requires
                qq.a2 == 2 * j * l + 4 * k * k + 4 * aa * (dy * dy),
        ;
        assert(qq.a1 * t == (4 * k * l) * t + (8 * aa * (vy * dy)) * t) by (nonlinear_arith)
            requires
                qq.a1 == 4 * k * l + 8 * aa * (vy * dy),
        ;
        assert(spec_quartic_eval(qq, t) == qq.a4 * t4 + qq.a3 * t3 + qq.a2 * t2 + qq.a1 * t
            + qq.a0);
        assert(self.spec_implicit(p) == q2 * q2 - 4 * aa * (bb - rel.y * rel.y));
        assert(spec_quartic_eval(qq, t) == self.spec_implicit(p));
    }
}

impl Torus {
    /// Some supplied root lies strictly inside the window.
    pub open spec fn spec_hits(self, roots: Seq<i64>, t0: int, t1: int) -> bool {
        exists|i: int| 0 <= i < roots.len() && t0 < #[trigger] roots[i] < t1
    }

    /// Full functional description of the record a hit returns: its `t` is
    /// a supplied root strictly inside the window and no smaller supplied
    /// root is inside, its point lies on the ray at that parameter, and its
    /// normal is the surface gradient there (or the axis fallback), flipped
    /// if needed so that it opposes the incoming ray.
    pub open spec fn record_matches(
        self,
        ray: Ray,
        roots: Seq<i64>,
        t0: int,
        t1: int,
        rec: HitRecord,
    ) -> bool {
        let p = ray.spec_at(rec.t as int);
        let out = self.spec_outward(p);
        let ff = ray.direction@.dot(out) < 0;
        &&& t0 < rec.t < t1
        &&& exists|i: int| 0 <= i < roots.len() && #[trigger] roots[i] == rec.t
        &&& forall|i: int| 0 <= i < roots.len() && t0 < #[trigger] roots[i] < t1 ==> rec.t
            <= roots[i]
        &&& rec.point@ == p
        &&& rec.front_face == ff
        &&& rec.normal@ == (if ff {
            out
        } else {
            out.neg()
        })
    }

    /// Gradient of the implicit surface expression at `p` (up to a constant
    /// positive factor): the exact outward normal direction, polynomial in
    /// the coordinates. It vanishes only at degenerate points (on the torus
    /// axis, or at the center plane crossings of it).
    pub open spec fn spec_gradient(self, p: Vec3i) -> Vec3i {
        let rel = p.sub(self.center@);
        let s2 = rel.norm2();
        let aa = self.a * self.a;
        let bb = self.b * self.b;
        Vec3i {
            x: rel.x * (s2 - aa - bb),
            y: rel.y * (s2 + aa - bb),
            z: rel.z * (s2 - aa - bb),
        }
    }

    /// Outward normal direction reported for a hit at `p`: the gradient, or
    /// the fixed +z fallback where the gradient vanishes (the degenerate
    /// axis case).
    pub open spec fn spec_outward(self, p: Vec3i) -> Vec3i {
        let g = self.spec_gradient(p);
        if g.is_zero() {
            Vec3i { x: 0, y: 0, z: 1 }
        } else {
            g
        }
    }

    /// Exact coefficients of the quartic whose real roots are the parameters
    /// where the ray meets the torus (`lemma_quartic_matches_surface`).
    pub fn quartic_coefficients(&self, ray: &Ray) -> (q: Quartic)
        requires
            self.wf(),
            Torus::ray_fits(*ray),
        ensures
            q@ == self.spec_quartic(*ray),
            q.small(),
    {
        let vx = ray.origin.x - self.center.x;
        let vy = ray.origin.y - self.center.y;
        let vz = ray.origin.z - self.center.z;
        let dxw = ray.direction.x as i128;
        let dyw = ray.direction.y as i128;
        let dzw = ray.direction.z as i128;
        let vxw = vx as i128;
        let vyw = vy as i128;
        let vzw = vz as i128;
        proof {
            lemma_mul_bound(dxw as int, dxw as int, 512, 512);
            lemma_mul_bound(dyw as int, dyw as int, 512, 512);
            lemma_mul_bound(dzw as int, dzw as int, 512, 512);
            lemma_mul_bound(vxw as int, dxw as int, 1024, 512);
            lemma_mul_bound(vyw as int, dyw as int, 1024, 512);
            lemma_mul_bound(vzw as int, dzw as int, 1024, 512);
            lemma_mul_bound(vxw as int, vxw as int, 1024, 1024);
            lemma_mul_bound(vyw as int, vyw as int, 1024, 1024);
            lemma_mul_bound(vzw as int, vzw as int, 1024, 1024);
            lemma_mul_bound(self.a as int, self.a as int, 512, 512);
            lemma_mul_bound(self.b as int, self.b as int, 512, 512);
        }
        let j = dxw * dxw + dyw * dyw + dzw * dzw;
        let k = vxw * dxw + vyw * dyw + vzw * dzw;
        let mm = vxw * vxw + vyw * vyw + vzw * vzw;
        let aa = (self.a as i128) * (self.a as i128);
        let bb = (self.b as i128) * (self.b as i128);
        let l = mm - aa - bb;
        proof {
            lemma_mul_bound(j as int, j as int, 786432, 786432);
            lemma_mul_bound(4 * j as int, k as int, 3145728, 1572864);
            lemma_mul_bound(2 * j as int, l as int, 1572864, 3670016);
            lemma_mul_bound(4 * k as int, k as int, 6291456, 1572864);
            lemma_mul_bound(4 * aa as int, (dyw * dyw) as int, 1048576, 262144);
            lemma_mul_bound(4 * k as int, l as int, 6291456, 3670016);
            lemma_mul_bound(8 * aa as int, (vyw * dyw) as int, 2097152, 524288);
            lemma_mul_bound(l as int, l as int, 3670016, 3670016);
            lemma_mul_bound(4 * aa as int, bb as int, 1048576, 262144);
            lemma_mul_bound(4 * aa as int, (vyw * vyw) as int, 1048576, 1048576);
        }
        Quartic {
            a4: j * j,
            a3: 4 * j * k,
            a2: 2 * j * l + 4 * k * k + 4 * aa * (dyw * dyw),
            a1: 4 * k * l + 8 * aa * (vyw * dyw),
            a0: l * l - 4 * aa * bb + 4 * aa * (vyw * vyw),
        }
    }

    /// The nearest supplied root strictly inside `(t_min, t_max)`, as a hit
    /// record, paired with the torus's material. The real roots of the
    /// quartic are isolated by a numeric solver outside the kernel and handed
    /// in; the selection and the record are exact for any supplied values.
    pub fn hit_with_roots(
        &self,
        ray: &Ray,
        roots: &Vec<i64>,
        t_min: i64,
        t_max: i64,
    ) -> (res: Option<(HitRecord, Material)>)
        requires
            self.wf(),
            Torus::ray_fits(*ray),
            -TORUS_BOUND <= t_min <= TORUS_BOUND,
            -TORUS_BOUND <= t_max <= TORUS_BOUND,
        ensures
            res.is_some() == self.spec_hits(roots@, t_min as int, t_max as int),
            res matches Some((rec, m)) ==> {
                &&& m == self.material
                &&& self.record_matches(*ray, roots@, t_min as int, t_max as int, rec)
            },
    {
        match closest_root_in_range(roots, t_min, t_max) {
            None => None,
            Some(t) => Some((self.build_hit_record(ray, t), self.material)),
        }
    }

    fn build_hit_record(&self, ray: &Ray, t: i64) -> (rec: HitRecord)
        requires
            self.wf(),
            Torus::ray_fits(*ray),
            -TORUS_BOUND <= t <= TORUS_BOUND,
        ensures
            rec.t == t,
            rec.point@ == ray.spec_at(t as int),
            ({
                let out = self.spec_outward(ray.spec_at(t as int));
                let ff = ray.direction@.dot(out) < 0;
                rec.front_face == ff && rec.normal@ == (if ff {
                    out
                } else {
                    out.neg()
                })
            }),
    {
        proof {
            lemma_mul_bound(ray.direction.x as int, t as int, 512, 512);
            lemma_mul_bound(ray.direction.y as int, t as int, 512, 512);
            lemma_mul_bound(ray.direction.z as int, t as int, 512, 512);
        }
        let px = ray.origin.x + t * ray.direction.x;
        let py = ray.origin.y + t * ray.direction.y;
        let pz = ray.origin.z + t * ray.direction.z;
        let point = Vector3 { x: px, y: py, z: pz };
        let rx = px - self.center.x;
        let ry = py - self.center.y;
        let rz = pz - self.center.z;
        proof {
            lemma_mul_bound(rx as int, rx as int, 263168, 263168);
            lemma_mul_bound(ry as int, ry as int, 263168, 263168);
            lemma_mul_bound(rz as int, rz as int, 263168, 263168);
            lemma_mul_bound(self.a as int, self.a as int, 512, 512);
            lemma_mul_bound(self.b as int, self.b as int, 512, 512);
        }
        let s2 = rx * rx + ry * ry + rz * rz;
        let aa = self.a * self.a;
        let bb = self.b * self.b;
        let c1 = s2 - aa - bb;
        let c2 = s2 + aa - bb;
        proof {
            lemma_mul_bound(rx as int, c1 as int, 263168, 300000000000);
            lemma_mul_bound(ry as int, c2 as int, 263168, 300000000000);
            lemma_mul_bound(rz as int, c1 as int, 263168, 300000000000);
        }
        let gx = rx * c1;
        let gy = ry * c2;
        let gz = rz * c1;
        let out: Vector3 = if gx == 0 && gy == 0 && gz == 0 {
            Vector3 { x: 0, y: 0, z: 1 }
        } else {
            Vector3 { x: gx, y: gy, z: gz }
        };
        proof {
            lemma_mul_bound(ray.direction.x as int, out.x as int, 512, 78953172992000000);
            lemma_mul_bound(ray.direction.y as int, out.y as int, 512, 78953172992000000);
            lemma_mul_bound(ray.direction.z as int, out.z as int, 512, 78953172992000000);
        }
        let dp: i128 = (ray.direction.x as i128) * (out.x as i128) + (ray.direction.y as i128) * (
        out.y as i128) + (ray.direction.z as i128) * (out.z as i128);
        let front_face = dp < 0;
        let normal = if front_face {
            out
        } else {
            Vector3 { x: -out.x, y: -out.y, z: -out.z }
        };
        HitRecord { point, normal, t, front_face }
    }
}

impl Quartic {
    /// Coefficients small enough for exact evaluation.
    pub open spec fn small(self) -> bool {
        &&& -100000000000000 <= self.a4 <= 100000000000000
        &&& -100000000000000 <= self.a3 <= 100000000000000
        &&& -100000000000000 <= self.a2 <= 100000000000000
        &&& -100000000000000 <= self.a1 <= 100000000000000
        &&& -100000000000000 <= self.a0 <= 100000000000000
    }

    /// Exact value of the quartic at an integer parameter; zero exactly when
    /// the ray meets the torus there.
    pub fn eval(&self, t: i64) -> (v: i128)
        requires
            self.small(),
            -1024 <= t <= 1024,
        ensures
            v == spec_quartic_eval(self@, t as int),
    {
        let tw = t as i128;
        proof {
            lemma_mul_bound(tw as int, tw as int, 1024, 1024);
            lemma_mul_bound((tw * tw) as int, tw as int, 1048576, 1024);
            lemma_mul_bound((tw * tw * tw) as int, tw as int, 1073741824, 1024);
            lemma_mul_bound(self.a4 as int, (tw * tw * tw * tw) as int, 100000000000000,
                1099511627776);
            lemma_mul_bound(self.a3 as int, (tw * tw * tw) as int, 100000000000000, 1073741824);
            lemma_mul_bound(self.a2 as int, (tw * tw) as int, 100000000000000, 1048576);
            lemma_mul_bound(self.a1 as int, tw as int, 100000000000000, 1024);
        }
        self.a4 * (tw * tw * tw * tw) + self.a3 * (tw * tw * tw) + self.a2 * (tw * tw) + self.a1
            * tw + self.a0
    }
}

/// The smallest supplied root strictly inside `(t_min, t_max)`, scanning in
/// order and keeping the first occurrence of the minimum.
pub fn closest_root_in_range(roots: &Vec<i64>, t_min: i64, t_max: i64) -> (res: Option<i64>)
    ensures
        res.is_none() == (forall|i: int|
            0 <= i < roots@.len() ==> !(t_min < #[trigger] roots@[i] < t_max)),
        res matches Some(r) ==> {
            &&& t_min < r < t_max
            &&& exists|i: int| 0 <= i < roots@.len() && #[trigger] roots@[i] == r
            &&& forall|i: int|
                0 <= i < roots@.len() && t_min < #[trigger] roots@[i] < t_max ==> r <= roots@[i]
        },
{
    let mut best: Option<i64> = None;
    let n = roots.len();
    let mut i: usize = 0;
    while i < n
        invariant
            n == roots@.len(),
            0 <= i <= n,
            best.is_none() == (forall|j: int|
                0 <= j < i ==> !(t_min < #[trigger] roots@[j] < t_max)),
            best matches Some(b) ==> {
                &&& t_min < b < t_max
                &&& exists|j: int| 0 <= j < i && #[trigger] roots@[j] == b
                &&& forall|j: int|
                    0 <= j < i && t_min < #[trigger] roots@[j] < t_max ==> b <= roots@[j]
            },
        decreases n - i,
    {
        let root = roots[i];
        if root > t_min && root < t_max {
            match best {
                None => {
                    best = Some(root);
                },
                Some(b) => {
                    if root < b {
                        best = Some(root);
                    }
                },
            }
        }
        i = i + 1;
    }
    best
}

} // verus!
