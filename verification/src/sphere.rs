//! Ray-sphere intersection, carried out exactly.
//!
//! For a ray `O + t D` and a sphere of center `C` and radius `r`, the hit
//! parameters are the roots of the quadratic `a t^2 + 2 hb t + c` with
//! `a = |D|^2`, `hb = (O-C).D`, `c = |O-C|^2 - r^2`. The roots are irrational
//! in general, so every statement about them is encoded without square roots:
//! "the near root is at least T" becomes a sign condition and a comparison of
//! squares, which integers decide exactly. The reported `t` is the floor of
//! the chosen root; the bracketing lemmas show the floor is exact.
//!
//! A negative radius models a hollow shell: the magnitude drops out of the
//! quadratic (only `r^2` enters), but the sign deliberately reverses the
//! outward normal.

use vstd::prelude::*;
use vstd::arithmetic::div_mod::lemma_fundamental_div_mod;
use vstd::arithmetic::div_mod::lemma_fundamental_div_mod_converse;
use vstd::arithmetic::div_mod::lemma_mod_division_less_than_divisor;
use crate::material::Material;
use crate::point::{
    COORD_BOUND,
    Point3,
    Vec3i,
    Vector3,
    is_sqrt_floor,
    isqrt,
    lemma_mul_bound,
    lemma_norm2_nonneg,
    lemma_sqrt_floor_exists,
    lemma_sqrt_floor_unique,
    sqrt_floor,
};
use crate::ray::{HitRecord, Ray};

verus! {

/// Analytic sphere; owns its material. A negative radius is allowed and
/// reverses the outward normal (a hollow shell).
#[derive(Debug, Clone, Copy)]
pub struct Sphere {
    pub center: Point3,
    pub radius: i64,
    pub material: Material,
}

impl Sphere {
    pub open spec fn wf(self) -> bool {
        &&& self.center.in_bounds()
        &&& -COORD_BOUND <= self.radius <= COORD_BOUND
    }

    /// Leading quadratic coefficient: the squared length of the direction.
    pub open spec fn qa(self, ray: Ray) -> int {
        ray.direction@.dot(ray.direction@)
    }

    /// Half the linear coefficient: `(O - C) . D`.
    pub open spec fn qhb(self, ray: Ray) -> int {
        ray.origin@.sub(self.center@).dot(ray.direction@)
    }

    /// Constant coefficient: `|O - C|^2 - r^2`.
    pub open spec fn qc(self, ray: Ray) -> int {
        ray.origin@.sub(self.center@).dot(ray.origin@.sub(self.center@)) - self.radius
            * self.radius
    }

    /// Quarter discriminant `hb^2 - a c`; the ray meets the sphere exactly
    /// when it is nonnegative.
    pub open spec fn discriminant(self, ray: Ray) -> int {
        self.qhb(ray) * self.qhb(ray) - self.qa(ray) * self.qc(ray)
    }

    /// The near root `(-hb - sqrt(disc)) / a` is at least `t`: equivalently
    /// `sqrt(disc) <= -hb - a t`, a sign condition plus a square comparison.
    pub open spec fn near_root_ge(self, ray: Ray, t: int) -> bool {
        let p = -self.qhb(ray) - self.qa(ray) * t;
        p >= 0 && self.discriminant(ray) <= p * p
    }

    /// The near root is at most `t`: `sqrt(disc) >= -hb - a t`.
    pub open spec fn near_root_le(self, ray: Ray, t: int) -> bool {
        let p = -self.qhb(ray) - self.qa(ray) * t;
        p <= 0 || self.discriminant(ray) >= p * p
    }

    /// The far root `(-hb + sqrt(disc)) / a` is at least `t`:
    /// `sqrt(disc) >= hb + a t`.
    pub open spec fn far_root_ge(self, ray: Ray, t: int) -> bool {
        let q = self.qhb(ray) + self.qa(ray) * t;
        q <= 0 || self.discriminant(ray) >= q * q
    }

    /// The far root is at most `t`: `sqrt(disc) <= hb + a t`.
    pub open spec fn far_root_le(self, ray: Ray, t: int) -> bool {
        let q = self.qhb(ray) + self.qa(ray) * t;
        q >= 0 && self.discriminant(ray) <= q * q
    }

    pub open spec fn near_root_in(self, ray: Ray, t0: int, t1: int) -> bool {
        self.near_root_ge(ray, t0) && self.near_root_le(ray, t1)
    }

    pub open spec fn far_root_in(self, ray: Ray, t0: int, t1: int) -> bool {
        self.far_root_ge(ray, t0) && self.far_root_le(ray, t1)
    }

    /// The ray hits the sphere within `[t0, t1]`: the discriminant is
    /// nonnegative and the near root lies in the window, or failing that the
    /// far root does (the near root is evaluated first, as the nearest).
    pub open spec fn spec_hits(self, ray: Ray, t0: int, t1: int) -> bool {
        &&& self.discriminant(ray) >= 0
        &&& (self.near_root_in(ray, t0, t1) || self.far_root_in(ray, t0, t1))
    }

    /// Which root a hit reports: the near one whenever it is in the window.
    pub open spec fn takes_near(self, ray: Ray, t0: int, t1: int) -> bool {
        self.near_root_in(ray, t0, t1)
    }

    /// Floor of the near root `(-hb - sqrt(disc)) / a`, computed from the
    /// floor `s` of `sqrt(disc)`: when `disc` is a perfect square the quotient
    /// is exact, otherwise the numerator is strictly between `-hb - s - 1` and
    /// `-hb - s`, which shifts the floor down only when `a` divides `-hb - s`.
    pub open spec fn near_root_floor(self, ray: Ray) -> int {
        let a = self.qa(ray);
        let hb = self.qhb(ray);
        let d = self.discriminant(ray);
        let s = sqrt_floor(d);
        let w = -hb - s;
        if s * s == d {
            w / a
        } else if w % a == 0 {
            w / a - 1
        } else {
            w / a
        }
    }

    /// Floor of the far root `(-hb + sqrt(disc)) / a`, which is always the
    /// integer quotient of `-hb + s` by `a`.
    pub open spec fn far_root_floor(self, ray: Ray) -> int {
        (-self.qhb(ray) + sqrt_floor(self.discriminant(ray))) / self.qa(ray)
    }

    /// The ray parameter a hit in `[t0, t1]` reports: the floor of the chosen
    /// root.
    pub open spec fn model_t(self, ray: Ray, t0: int, t1: int) -> int {
        if self.takes_near(ray, t0, t1) {
            self.near_root_floor(ray)
        } else {
            self.far_root_floor(ray)
        }
    }

    /// Geometric outward normal direction at `p`: `p - C`, reversed when the
    /// radius is negative (hollow shell).
    pub open spec fn spec_outward(self, p: Vec3i) -> Vec3i {
        if self.radius >= 0 {
            p.sub(self.center@)
        } else {
            p.sub(self.center@).neg()
        }
    }

    /// Full functional description of the record a hit in `[t0, t1]` returns:
    /// its `t` is the floor of the chosen root, its point lies on the ray at
    /// that parameter, and its normal is the outward direction there, flipped
    /// if needed so that it opposes the incoming ray.
    pub open spec fn record_matches(self, ray: Ray, t0: int, t1: int, rec: HitRecord) -> bool {
        let t = self.model_t(ray, t0, t1);
        let p = ray.spec_at(t);
        let out = self.spec_outward(p);
        let ff = ray.direction@.dot(out) < 0;
        &&& rec.t == t
        &&& rec.point@ == p
        &&& rec.front_face == ff
        &&& rec.normal@ == (if ff {
            out
        } else {
            out.neg()
        })
    }
}

proof fn lemma_sq_le(x: int, y: int)
    by (nonlinear_arith)
    requires
        0 <= x <= y,
    ensures
        x * x <= y * y,
{
}

proof fn lemma_sq_lt(x: int, y: int)
    by (nonlinear_arith)
    requires
        0 <= x < y,
    ensures
        x * x < y * y,
{
}

proof fn lemma_mul_nonneg(a: int, b: int)
    by (nonlinear_arith)
    requires
        0 <= a,
        0 <= b,
    ensures
        0 <= a * b,
{
}

impl Sphere {
    /// Being at least `t2` implies being at least any smaller bound.
    pub proof fn lemma_near_ge_mono(self, ray: Ray, t1: int, t2: int)
        requires
            self.qa(ray) > 0,
            t1 <= t2,
            self.near_root_ge(ray, t2),
        ensures
            self.near_root_ge(ray, t1),
    {
        let a = self.qa(ray);
        let hb = self.qhb(ray);
        let d = self.discriminant(ray);
        let p2 = -hb - a * t2;
        let p1 = -hb - a * t1;
        assert(p1 - p2 == a * (t2 - t1)) by (nonlinear_arith)
            requires
                p1 == -hb - a * t1,
                p2 == -hb - a * t2,
        ;
        lemma_mul_nonneg(a, t2 - t1);
        lemma_sq_le(p2, p1);
    }

    /// Being at most `t1` implies being at most any larger bound.
    pub proof fn lemma_near_le_mono(self, ray: Ray, t1: int, t2: int)
        requires
            self.qa(ray) > 0,
            t1 <= t2,
            self.near_root_le(ray, t1),
        ensures
            self.near_root_le(ray, t2),
    {
        let a = self.qa(ray);
        let hb = self.qhb(ray);
        let d = self.discriminant(ray);
        let p2 = -hb - a * t2;
        let p1 = -hb - a * t1;
        assert(p1 - p2 == a * (t2 - t1)) by (nonlinear_arith)
            requires
                p1 == -hb - a * t1,
                p2 == -hb - a * t2,
        ;
        lemma_mul_nonneg(a, t2 - t1);
        if p1 <= 0 {
        } else {
            if p2 > 0 {
                lemma_sq_le(p2, p1);
            }
        }
    }

    pub proof fn lemma_far_ge_mono(self, ray: Ray, t1: int, t2: int)
        requires
            self.qa(ray) > 0,
            t1 <= t2,
            self.far_root_ge(ray, t2),
        ensures
            self.far_root_ge(ray, t1),
    {
        let a = self.qa(ray);
        let hb = self.qhb(ray);
        let q2 = hb + a * t2;
        let q1 = hb + a * t1;
        assert(q2 - q1 == a * (t2 - t1)) by (nonlinear_arith)
            requires
                q1 == hb + a * t1,
                q2 == hb + a * t2,
        ;
        lemma_mul_nonneg(a, t2 - t1);
        if q1 <= 0 {
        } else {
            lemma_sq_le(q1, q2);
        }
    }

    pub proof fn lemma_far_le_mono(self, ray: Ray, t1: int, t2: int)
        requires
            self.qa(ray) > 0,
            t1 <= t2,
            self.far_root_le(ray, t1),
        ensures
            self.far_root_le(ray, t2),
    {
        let a = self.qa(ray);
        let hb = self.qhb(ray);
        let q2 = hb + a * t2;
        let q1 = hb + a * t1;
        assert(q2 - q1 == a * (t2 - t1)) by (nonlinear_arith)
            requires
                q1 == hb + a * t1,
                q2 == hb + a * t2,
        ;
        lemma_mul_nonneg(a, t2 - t1);
        lemma_sq_le(q1, q2);
    }

    /// A root bracketed between two integer bounds forces the bounds into
    /// order.
    pub proof fn lemma_near_range(self, ray: Ray, t0: int, t1: int)
        requires
            self.qa(ray) > 0,
            self.near_root_ge(ray, t0),
            self.near_root_le(ray, t1),
        ensures
            t0 <= t1,
    {
        let a = self.qa(ray);
        let hb = self.qhb(ray);
        let d = self.discriminant(ray);
        let p0 = -hb - a * t0;
        let p1 = -hb - a * t1;
        if t0 > t1 {
            assert(p1 - p0 == a * (t0 - t1)) by (nonlinear_arith)
                requires
                    p0 == -hb - a * t0,
                    p1 == -hb - a * t1,
            ;
            assert(a * (t0 - t1) >= a) by (nonlinear_arith)
                requires
                    a > 0,
                    t0 - t1 >= 1,
            ;
            lemma_sq_lt(p0, p1);
        }
    }

    pub proof fn lemma_far_range(self, ray: Ray, t0: int, t1: int)
        requires
            self.qa(ray) > 0,
            self.far_root_ge(ray, t0),
            self.far_root_le(ray, t1),
        ensures
            t0 <= t1,
    {
        let a = self.qa(ray);
        let hb = self.qhb(ray);
        let d = self.discriminant(ray);
        let q0 = hb + a * t0;
        let q1 = hb + a * t1;
        if t0 > t1 {
            assert(q0 - q1 == a * (t0 - t1)) by (nonlinear_arith)
                requires
                    q0 == hb + a * t0,
                    q1 == hb + a * t1,
            ;
            assert(a * (t0 - t1) >= a) by (nonlinear_arith)
                requires
                    a > 0,
                    t0 - t1 >= 1,
            ;
            lemma_sq_lt(q1, q0);
        }
    }

    /// The reported `t` of the near root is its floor: the root is at least
    /// `t` but not at least `t + 1`.
    pub proof fn lemma_near_floor_brackets(self, ray: Ray)
        requires
            self.qa(ray) > 0,
            self.discriminant(ray) >= 0,
        ensures
            self.near_root_ge(ray, self.near_root_floor(ray)),
            !self.near_root_ge(ray, self.near_root_floor(ray) + 1),
    {
        let a = self.qa(ray);
        let hb = self.qhb(ray);
        let d = self.discriminant(ray);
        lemma_sqrt_floor_exists(d);
        let s = sqrt_floor(d);
        let w = -hb - s;
        lemma_fundamental_div_mod(w, a);
        lemma_mod_division_less_than_divisor(w, a);
        let q = w / a;
        let r = w % a;
        let nf = self.near_root_floor(ray);
        let p = -hb - a * nf;
        let p1 = -hb - a * (nf + 1);
        if s * s == d {
            assert(nf == q);
            assert(p == s + r) by (nonlinear_arith)
                requires
                    p == -hb - a * nf,
                    nf == q,
                    w == a * q + r,
                    w == -hb - s,
            ;
            lemma_sq_le(s, s + r);
            assert(self.near_root_ge(ray, nf));
            assert(p1 == s + r - a) by (nonlinear_arith)
                requires
                    p1 == -hb - a * (nf + 1),
                    nf == q,
                    w == a * q + r,
                    w == -hb - s,
            ;
            if p1 >= 0 {
                lemma_sq_lt(p1, s);
            }
            assert(!self.near_root_ge(ray, nf + 1));
        } else if r == 0 {
            assert(nf == q - 1);
            assert(p == s + a) by (nonlinear_arith)
                requires
                    p == -hb - a * nf,
                    nf == q - 1,
                    w == a * q + r,
                    r == 0,
                    w == -hb - s,
            ;
            lemma_sq_le(s + 1, s + a);
            assert(self.near_root_ge(ray, nf));
            assert(p1 == s) by (nonlinear_arith)
                requires
                    p1 == -hb - a * (nf + 1),
                    nf == q - 1,
                    w == a * q + r,
                    r == 0,
                    w == -hb - s,
            ;
            assert(!self.near_root_ge(ray, nf + 1));
        } else {
            assert(nf == q);
            assert(p == s + r) by (nonlinear_arith)
                requires
                    p == -hb - a * nf,
                    nf == q,
                    w == a * q + r,
                    w == -hb - s,
            ;
            lemma_sq_le(s + 1, s + r);
            assert(self.near_root_ge(ray, nf));
            assert(p1 == s + r - a) by (nonlinear_arith)
                requires
                    p1 == -hb - a * (nf + 1),
                    nf == q,
                    w == a * q + r,
                    w == -hb - s,
            ;
            if p1 >= 0 {
                lemma_sq_le(p1, s);
            }
            assert(!self.near_root_ge(ray, nf + 1));
        }
    }

    /// The reported `t` of the far root is its floor.
    pub proof fn lemma_far_floor_brackets(self, ray: Ray)
        requires
            self.qa(ray) > 0,
            self.discriminant(ray) >= 0,
        ensures
            self.far_root_ge(ray, self.far_root_floor(ray)),
            !self.far_root_ge(ray, self.far_root_floor(ray) + 1),
    {
        let a = self.qa(ray);
        let hb = self.qhb(ray);
        let d = self.discriminant(ray);
        lemma_sqrt_floor_exists(d);
        let s = sqrt_floor(d);
        let u = -hb + s;
        lemma_fundamental_div_mod(u, a);
        lemma_mod_division_less_than_divisor(u, a);
        let q = u / a;
        let r = u % a;
        let ff = self.far_root_floor(ray);
        assert(ff == q);
        let qp = hb + a * ff;
        let qp1 = hb + a * (ff + 1);
        assert(qp == s - r) by (nonlinear_arith)
            requires
                qp == hb + a * ff,
                ff == q,
                u == a * q + r,
                u == -hb + s,
        ;
        if qp > 0 {
            lemma_sq_le(qp, s);
        }
        assert(self.far_root_ge(ray, ff));
        assert(qp1 == s - r + a) by (nonlinear_arith)
            requires
                qp1 == hb + a * (ff + 1),
                ff == q,
                u == a * q + r,
                u == -hb + s,
        ;
        lemma_sq_le(s + 1, qp1);
        assert(!self.far_root_ge(ray, ff + 1));
    }

    /// A hit's reported parameter lies inside the query window.
    pub proof fn lemma_model_t_in_window(self, ray: Ray, t0: int, t1: int)
        requires
            self.qa(ray) > 0,
            self.spec_hits(ray, t0, t1),
        ensures
            t0 <= self.model_t(ray, t0, t1) <= t1,
    {
        if self.takes_near(ray, t0, t1) {
            let nf = self.near_root_floor(ray);
            self.lemma_near_floor_brackets(ray);
            if t0 >= nf + 1 {
                self.lemma_near_ge_mono(ray, nf + 1, t0);
            }
            self.lemma_near_range(ray, nf, t1);
        } else {
            let ff = self.far_root_floor(ray);
            self.lemma_far_floor_brackets(ray);
            if t0 >= ff + 1 {
                self.lemma_far_ge_mono(ray, ff + 1, t0);
            }
            self.lemma_far_range(ray, ff, t1);
        }
    }

    /// A hit inside a narrowed window `[t0, c]` is the same hit inside any
    /// containing window `[t0, t1]`: same root chosen, same reported
    /// parameter.
    pub proof fn lemma_window_widen(self, ray: Ray, t0: int, c: int, t1: int)
        requires
            self.qa(ray) > 0,
            c <= t1,
            self.spec_hits(ray, t0, c),
        ensures
            self.spec_hits(ray, t0, t1),
            self.model_t(ray, t0, c) == self.model_t(ray, t0, t1),
    {
        if self.near_root_in(ray, t0, c) {
            self.lemma_near_le_mono(ray, c, t1);
        } else {
            assert(self.far_root_in(ray, t0, c));
            self.lemma_far_le_mono(ray, c, t1);
            // The near root cannot be in the wide window either: it is not in
            // the narrow one, yet the far root is at most `c`, and the near
            // root never exceeds the far root.
            if self.near_root_in(ray, t0, t1) {
                let a = self.qa(ray);
                let hb = self.qhb(ray);
                let d = self.discriminant(ray);
                let p = -hb - a * c;
                assert(!self.near_root_le(ray, c));
                assert(p > 0 && d < p * p);
                assert(self.far_root_le(ray, c));
                assert(hb + a * c >= 0);
            }
        }
    }

    /// A surface that hits a wide window but not a narrowed one only hits
    /// beyond the narrowed bound.
    pub proof fn lemma_window_narrow_miss(self, ray: Ray, t0: int, c: int, t1: int)
        requires
            self.qa(ray) > 0,
            c <= t1,
            self.spec_hits(ray, t0, t1),
            !self.spec_hits(ray, t0, c),
        ensures
            self.model_t(ray, t0, t1) >= c,
    {
        let a = self.qa(ray);
        let hb = self.qhb(ray);
        let d = self.discriminant(ray);
        if self.takes_near(ray, t0, t1) {
            let nf = self.near_root_floor(ray);
            self.lemma_near_floor_brackets(ray);
            assert(!self.near_root_le(ray, c));
            let p = -hb - a * c;
            assert(p > 0 && d < p * p);
            assert(self.near_root_ge(ray, c));
            if c >= nf + 1 {
                self.lemma_near_ge_mono(ray, nf + 1, c);
            }
        } else {
            assert(self.far_root_in(ray, t0, t1));
            let ff = self.far_root_floor(ray);
            self.lemma_far_floor_brackets(ray);
            assert(!self.far_root_le(ray, c) || !self.far_root_ge(ray, t0));
            assert(self.far_root_ge(ray, t0));
            assert(!self.far_root_le(ray, c));
            let qc = hb + a * c;
            assert(qc < 0 || d > qc * qc);
            assert(self.far_root_ge(ray, c));
            if c >= ff + 1 {
                self.lemma_far_ge_mono(ray, ff + 1, c);
            }
        }
    }
}

impl Sphere {
    /// The orientation rule: whatever the geometry, the normal a hit record
    /// reports never points with the incoming ray -- it is the outward
    /// direction when that already opposes the ray, and its negation
    /// otherwise.
    pub proof fn lemma_normal_opposes_ray(self, ray: Ray, t0: int, t1: int, rec: HitRecord)
        requires
            self.record_matches(ray, t0, t1, rec),
        ensures
            ray.direction@.dot(rec.normal@) <= 0,
    {
        let out = self.spec_outward(ray.spec_at(self.model_t(ray, t0, t1)));
        let dir = ray.direction@;
        assert(dir.dot(out.neg()) == -dir.dot(out)) by (nonlinear_arith)
            requires
                out.neg().x == -out.x,
                out.neg().y == -out.y,
                out.neg().z == -out.z,
                dir.dot(out) == dir.x * out.x + dir.y * out.y + dir.z * out.z,
                dir.dot(out.neg()) == dir.x * out.neg().x + dir.y * out.neg().y + dir.z
                    * out.neg().z,
        ;
    }
}

/// A ray with a unit direction aimed straight at the center of a sphere of
/// positive radius from outside always hits it, at exactly the distance to
/// the surface, on the front face, with the outward normal pointing back
/// along the ray toward the origin.
///
/// "Aimed at the center from outside" is `C == O + m D` with `|D|^2 == 1` and
/// `m > r > 0`; the distance to the surface along the ray is then `m - r`.
pub proof fn lemma_ray_at_center_hits(s: Sphere, ray: Ray, m: int, t1: int)
    requires
        ray.direction@.dot(ray.direction@) == 1,
        s.center@ == ray.origin@.add(ray.direction@.scale(m)),
        0 < s.radius,
        s.radius < m,
        m - s.radius <= t1,
    ensures
        s.spec_hits(ray, 0, t1),
        s.takes_near(ray, 0, t1),
        s.model_t(ray, 0, t1) == m - s.radius,
        s.spec_outward(ray.spec_at(m - s.radius)) == ray.direction@.scale(-(s.radius as int)),
        ray.direction@.dot(s.spec_outward(ray.spec_at(m - s.radius))) < 0,
{
    let a = s.qa(ray);
    let hb = s.qhb(ray);
    let d = s.discriminant(ray);
    let r = s.radius as int;
    let dir = ray.direction@;
    let oc = ray.origin@.sub(s.center@);
    assert(a == 1);
    assert(oc.x == -(m * dir.x));
    assert(oc.y == -(m * dir.y));
    assert(oc.z == -(m * dir.z));
    assert(hb == -m) by (nonlinear_arith)
        requires
            oc.x == -(m * dir.x),
            oc.y == -(m * dir.y),
            oc.z == -(m * dir.z),
            dir.x * dir.x + dir.y * dir.y + dir.z * dir.z == 1,
            hb == oc.x * dir.x + oc.y * dir.y + oc.z * dir.z,
    ;
    assert(oc.dot(oc) == m * m) by (nonlinear_arith)
        requires
            oc.x == -(m * dir.x),
            oc.y == -(m * dir.y),
            oc.z == -(m * dir.z),
            dir.x * dir.x + dir.y * dir.y + dir.z * dir.z == 1,
    ;
    assert(d == r * r) by (nonlinear_arith)
        requires
            d == hb * hb - a * (oc.dot(oc) - r * r),
            hb == -m,
            a == 1,
            oc.dot(oc) == m * m,
    ;
    assert(is_sqrt_floor(r * r, r)) by (nonlinear_arith)
        requires
            0 < r,
    ;
    lemma_sqrt_floor_unique(r * r, r);
    // The near root lies in [0, t1]: its value is (m - r) / 1.
    let p_lo = -hb - a * 0;
    assert(p_lo == m) by (nonlinear_arith)
        requires
            p_lo == -hb - a * 0,
            hb == -m,
            a == 1,
    ;
    lemma_sq_le(r, m);
    assert(s.near_root_ge(ray, 0));
    let p_hi = -hb - a * t1;
    assert(p_hi == m - t1) by (nonlinear_arith)
        requires
            p_hi == -hb - a * t1,
            hb == -m,
            a == 1,
    ;
    if p_hi > 0 {
        lemma_sq_le(p_hi, r);
    }
    assert(s.near_root_le(ray, t1));
    assert(s.takes_near(ray, 0, t1));
    // The floor: disc is the perfect square r^2, so the floor is (m - r) / 1.
    let w = -hb - sqrt_floor(d);
    assert(w == m - r);
    lemma_fundamental_div_mod_converse(m - r, 1, m - r, 0);
    assert(s.near_root_floor(ray) == m - r);
    // Outward normal at the hit point: -r D, opposing the unit direction.
    let hit_p = ray.spec_at(m - r);
    assert(hit_p.sub(s.center@).x == -(r * dir.x)) by (nonlinear_arith)
        requires
            hit_p.x == ray.origin@.x + (m - r) * dir.x,
            s.center@.x == ray.origin@.x + m * dir.x,
    ;
    assert(hit_p.sub(s.center@).y == -(r * dir.y)) by (nonlinear_arith)
        requires
            hit_p.y == ray.origin@.y + (m - r) * dir.y,
            s.center@.y == ray.origin@.y + m * dir.y,
    ;
    assert(hit_p.sub(s.center@).z == -(r * dir.z)) by (nonlinear_arith)
        requires
            hit_p.z == ray.origin@.z + (m - r) * dir.z,
            s.center@.z == ray.origin@.z + m * dir.z,
    ;
    let out = s.spec_outward(hit_p);
    assert(out == dir.scale(-r)) by (nonlinear_arith)
        requires
            out.x == -(r * dir.x),
            out.y == -(r * dir.y),
            out.z == -(r * dir.z),
            dir.scale(-r).x == -r * dir.x,
            dir.scale(-r).y == -r * dir.y,
            dir.scale(-r).z == -r * dir.z,
    ;
    assert(dir.dot(out) == -r) by (nonlinear_arith)
        requires
            out.x == -(r * dir.x),
            out.y == -(r * dir.y),
            out.z == -(r * dir.z),
            dir.x * dir.x + dir.y * dir.y + dir.z * dir.z == 1,
            dir.dot(out) == dir.x * out.x + dir.y * out.y + dir.z * out.z,
    ;
}

/// Negating the radius (a hollow shell) leaves the hit classification and the
/// reported parameter unchanged -- only the square of the radius enters the
/// quadratic -- but reverses the computed outward normal, and with it the sign
/// of its product with the ray direction (so the front-face flag flips
/// wherever the ray is not tangent).
pub proof fn lemma_negative_radius_flips_normal(
    s1: Sphere,
    s2: Sphere,
    ray: Ray,
    t0: int,
    t1: int,
    p: Vec3i,
)
    requires
        s2.center == s1.center,
        s2.radius == -s1.radius,
        s1.radius > 0,
    ensures
        s1.spec_hits(ray, t0, t1) == s2.spec_hits(ray, t0, t1),
        s1.model_t(ray, t0, t1) == s2.model_t(ray, t0, t1),
        s2.spec_outward(p) == s1.spec_outward(p).neg(),
        ray.direction@.dot(s2.spec_outward(p)) == -ray.direction@.dot(s1.spec_outward(p)),
{
    let r1 = s1.radius as int;
    let r2 = s2.radius as int;
    assert(r2 * r2 == r1 * r1) by (nonlinear_arith)
        requires
            r2 == -r1,
    ;
    assert(s1.qc(ray) == s2.qc(ray));
    assert(s1.discriminant(ray) == s2.discriminant(ray));
    let w1 = s1.spec_outward(p);
    let w2 = s2.spec_outward(p);
    assert(w2 == w1.neg());
    let dir = ray.direction@;
    assert(dir.dot(w2) == -dir.dot(w1)) by (nonlinear_arith)
        requires
            w2.x == -w1.x,
            w2.y == -w1.y,
            w2.z == -w1.z,
            dir.dot(w1) == dir.x * w1.x + dir.y * w1.y + dir.z * w1.z,
            dir.dot(w2) == dir.x * w2.x + dir.y * w2.y + dir.z * w2.z,
    ;
}

fn dot_i128(ax: i64, ay: i64, az: i64, bx: i64, by: i64, bz: i64) -> (r: i128)
    requires
        -2097152 <= ax <= 2097152,
        -2097152 <= ay <= 2097152,
        -2097152 <= az <= 2097152,
        -2097152 <= bx <= 2097152,
        -2097152 <= by <= 2097152,
        -2097152 <= bz <= 2097152,
    ensures
        r == (Vec3i { x: ax as int, y: ay as int, z: az as int }).dot(
            Vec3i { x: bx as int, y: by as int, z: bz as int },
        ),
        -13194139533312 <= r <= 13194139533312,
{
    proof {
        lemma_mul_bound(ax as int, bx as int, 2097152, 2097152);
        lemma_mul_bound(ay as int, by as int, 2097152, 2097152);
        lemma_mul_bound(az as int, bz as int, 2097152, 2097152);
    }
    (ax as i128) * (bx as i128) + (ay as i128) * (by as i128) + (az as i128) * (bz as i128)
}

/// Euclidean (floor) division by a positive divisor.
fn floor_div_i128(n: i128, d: i128) -> (q: i128)
    requires
        0 < d <= 1000000000000000000000000000000,
        -1000000000000000000000000000000 <= n <= 1000000000000000000000000000000,
    ensures
        q == n as int / d as int,
{
    if n >= 0 {
        proof {
            vstd::arithmetic::div_mod::lemma_div_pos_is_pos(n as int, d as int);
            vstd::arithmetic::div_mod::lemma_div_nonincreasing(n as int, d as int);
        }
        let qu = (n as u128) / (d as u128);
        qu as i128
    } else {
        let m = -n;
        let mu = m as u128;
        let du = d as u128;
        proof {
            let mi = m as int;
            let di = d as int;
            lemma_fundamental_div_mod(mi + di - 1, di);
            lemma_mod_division_less_than_divisor(mi + di - 1, di);
            let qq = (mi + di - 1) / di;
            let rr = (mi + di - 1) % di;
            assert(n as int == (-qq) * di + (di - 1 - rr)) by (nonlinear_arith)
                requires
                    mi + di - 1 == di * qq + rr,
                    n == -mi,
            ;
            lemma_fundamental_div_mod_converse(n as int, di, -qq, di - 1 - rr);
            vstd::arithmetic::div_mod::lemma_div_pos_is_pos(mi + di - 1, di);
            vstd::arithmetic::div_mod::lemma_div_nonincreasing(mi + di - 1, di);
        }
        let qc = (mu + du - 1) / du;
        -(qc as i128)
    }
}

impl Sphere {
    fn build_hit_record(&self, ray: &Ray, t: i64) -> (rec: HitRecord)
        requires
            self.wf(),
            ray.in_bounds(),
            -COORD_BOUND <= t <= COORD_BOUND,
        ensures
            rec.t == t,
            rec.point@ == ray.spec_at(t as int),
            rec.front_face == (ray.direction@.dot(self.spec_outward(ray.spec_at(t as int))) < 0),
            rec.normal@ == (if rec.front_face {
                self.spec_outward(ray.spec_at(t as int))
            } else {
                self.spec_outward(ray.spec_at(t as int)).neg()
            }),
    {
        let point = ray.at(t);
        proof {
            lemma_mul_bound(t as int, ray.direction.x as int, 1048576, 1048576);
            lemma_mul_bound(t as int, ray.direction.y as int, 1048576, 1048576);
            lemma_mul_bound(t as int, ray.direction.z as int, 1048576, 1048576);
        }
        let wx = point.x - self.center.x;
        let wy = point.y - self.center.y;
        let wz = point.z - self.center.z;
        let nx: i64 = if self.radius >= 0 {
            wx
        } else {
            -wx
        };
        let ny: i64 = if self.radius >= 0 {
            wy
        } else {
            -wy
        };
        let nz: i64 = if self.radius >= 0 {
            wz
        } else {
            -wz
        };
        proof {
            lemma_mul_bound(ray.direction.x as int, nx as int, 1048576, 1099513724928);
            lemma_mul_bound(ray.direction.y as int, ny as int, 1048576, 1099513724928);
            lemma_mul_bound(ray.direction.z as int, nz as int, 1048576, 1099513724928);
        }
        let dp: i128 = (ray.direction.x as i128) * (nx as i128) + (ray.direction.y as i128) * (
        ny as i128) + (ray.direction.z as i128) * (nz as i128);
        let front_face = dp < 0;
        let normal = if front_face {
            Vector3 { x: nx, y: ny, z: nz }
        } else {
            Vector3 { x: -nx, y: -ny, z: -nz }
        };
        HitRecord { point, normal, t, front_face }
    }

    /// Nearest intersection of the ray with this sphere inside
    /// `[t_min, t_max]`: the near quadratic root if it lies in the window,
    /// otherwise the far root, otherwise no hit. The returned record carries
    /// the floor of that root, the ray point there, and the (unnormalized)
    /// normal opposing the ray; the paired value is the sphere's material.
    pub fn hit(&self, ray: &Ray, t_min: i64, t_max: i64) -> (res: Option<(HitRecord, Material)>)
        requires
            self.wf(),
            ray.in_bounds(),
            !ray.direction@.is_zero(),
            -COORD_BOUND <= t_min <= COORD_BOUND,
            -COORD_BOUND <= t_max <= COORD_BOUND,
        ensures
            res.is_some() == self.spec_hits(*ray, t_min as int, t_max as int),
            res matches Some((rec, m)) ==> {
                &&& self.record_matches(*ray, t_min as int, t_max as int, rec)
                &&& m == self.material
                &&& t_min <= rec.t <= t_max
            },
    {
        let ghost ti0 = t_min as int;
        let ghost ti1 = t_max as int;
        let ocx = ray.origin.x - self.center.x;
        let ocy = ray.origin.y - self.center.y;
        let ocz = ray.origin.z - self.center.z;
        let dx = ray.direction.x;
        let dy = ray.direction.y;
        let dz = ray.direction.z;
        let a = dot_i128(dx, dy, dz, dx, dy, dz);
        let hb = dot_i128(ocx, ocy, ocz, dx, dy, dz);
        let oc2 = dot_i128(ocx, ocy, ocz, ocx, ocy, ocz);
        proof {
            lemma_mul_bound(self.radius as int, self.radius as int, 1048576, 1048576);
        }
        let cc = oc2 - (self.radius as i128) * (self.radius as i128);
        proof {
            crate::point::lemma_dot_bound(ray.direction, ray.direction);
            assert(-6597069766656 <= hb <= 6597069766656) by (nonlinear_arith)
                requires
                    hb == ocx * dx + ocy * dy + ocz * dz,
                    -2097152 <= ocx <= 2097152,
                    -2097152 <= ocy <= 2097152,
                    -2097152 <= ocz <= 2097152,
                    -1048576 <= dx <= 1048576,
                    -1048576 <= dy <= 1048576,
                    -1048576 <= dz <= 1048576,
            ;
            lemma_mul_bound(hb as int, hb as int, 6597069766656, 6597069766656);
            lemma_mul_bound(a as int, cc as int, 3298534883328, 14293651161088);
            lemma_norm2_nonneg(ray.direction@);
        }
        let disc = hb * hb - a * cc;
        proof {
            assert(a == self.qa(*ray));
            assert(hb == self.qhb(*ray));
            assert(cc == self.qc(*ray));
            assert(disc == self.discriminant(*ray));
            assert(a > 0);
        }
        if disc < 0 {
            return None;
        }
        let s128 = isqrt(disc as u128);
        proof {
            assert(is_sqrt_floor(disc as int, s128 as int));
            lemma_sqrt_floor_unique(disc as int, s128 as int);
            assert(s128 < 17592186044416u128) by (nonlinear_arith)
                requires
                    s128 * s128 <= disc,
                    0 <= disc < 100000000000000000000000000,
            ;
        }
        let s = s128 as i128;
        proof {
            lemma_mul_bound(a as int, t_min as int, 3298534883328, 1048576);
            lemma_mul_bound(a as int, t_max as int, 3298534883328, 1048576);
        }
        let p0 = -hb - a * (t_min as i128);
        let p1 = -hb - a * (t_max as i128);
        proof {
            lemma_mul_bound(p0 as int, p0 as int, 4611686018427387904, 4611686018427387904);
            lemma_mul_bound(p1 as int, p1 as int, 4611686018427387904, 4611686018427387904);
        }
        let near_in = (p0 >= 0 && disc <= p0 * p0) && (p1 <= 0 || disc >= p1 * p1);
        proof {
            assert(near_in == self.near_root_in(*ray, ti0, ti1));
        }
        if near_in {
            let w = -hb - s;
            let q = floor_div_i128(w, a);
            proof {
                lemma_fundamental_div_mod(w as int, a as int);
                lemma_mod_division_less_than_divisor(w as int, a as int);
                let wrem = (w as int) % (a as int);
                assert(-24189255811072 <= q <= 24189255811072) by (nonlinear_arith)
                    requires
                        w == a * q + wrem,
                        0 <= wrem < a,
                        1 <= a,
                        -24189255811072 <= w <= 24189255811072,
                ;
                lemma_mul_bound(a as int, q as int, 3298534883328, 24189255811072);
            }
            let rem = w - a * q;
            let exact = s * s == disc;
            let tf128: i128 = if exact {
                q
            } else if rem == 0 {
                q - 1
            } else {
                q
            };
            proof {
                assert(tf128 == self.near_root_floor(*ray));
                assert(self.takes_near(*ray, ti0, ti1));
                assert(tf128 == self.model_t(*ray, ti0, ti1));
                self.lemma_model_t_in_window(*ray, ti0, ti1);
            }
            let tf = tf128 as i64;
            let rec = self.build_hit_record(ray, tf);
            Some((rec, self.material))
        } else {
            let q0 = hb + a * (t_min as i128);
            let q1 = hb + a * (t_max as i128);
            proof {
                lemma_mul_bound(q0 as int, q0 as int, 4611686018427387904, 4611686018427387904);
                lemma_mul_bound(q1 as int, q1 as int, 4611686018427387904, 4611686018427387904);
            }
            let far_in = (q0 <= 0 || disc >= q0 * q0) && (q1 >= 0 && disc <= q1 * q1);
            proof {
                assert(far_in == self.far_root_in(*ray, ti0, ti1));
            }
            if far_in {
                let u = -hb + s;
                let tf128 = floor_div_i128(u, a);
                proof {
                    assert(tf128 == self.far_root_floor(*ray));
                    assert(!self.takes_near(*ray, ti0, ti1));
                    assert(tf128 == self.model_t(*ray, ti0, ti1));
                    self.lemma_model_t_in_window(*ray, ti0, ti1);
                }
                let tf = tf128 as i64;
                let rec = self.build_hit_record(ray, tf);
                Some((rec, self.material))
            } else {
                None
            }
        }
    }
}

} // verus!
