//! Material models: diffuse, metallic and dielectric scattering.
//!
//! Scattering consumes randomness and unit vectors, which are irrational in
//! general; those quantities enter as arguments, and every decision made from
//! them -- the degenerate-direction substitution, the grazing-ray absorption
//! rule, the choice of refraction ratio, the total-internal-reflection test --
//! is verified for every value the sampler may hand in. Exact ratios (the
//! metal's fuzz, the refractive index, the cosine of the incident angle) are
//! carried as integer fractions.

use vstd::prelude::*;
use crate::color::Color;
use crate::point::{Vec3i, Vector3};

verus! {

/// Diffuse surface: scatters into the hemisphere around the normal and
/// attenuates by its albedo unconditionally.
#[derive(Debug, Clone, Copy, PartialEq, Eq, Structural)]
pub struct LambertianMaterial {
    albedo: Color,
}

impl LambertianMaterial {
    pub closed spec fn spec_albedo(self) -> Color {
        self.albedo
    }

    pub fn new(albedo: Color) -> (m: LambertianMaterial)
        ensures
            m.spec_albedo() == albedo,
    {
        LambertianMaterial { albedo }
    }

    pub fn default() -> (m: LambertianMaterial)
        ensures
            m.spec_albedo() == (Color { r: 0, g: 0, b: 0 }),
    {
        LambertianMaterial { albedo: Color { r: 0, g: 0, b: 0 } }
    }

    pub fn albedo(&self) -> (c: Color)
        ensures
            c == self.spec_albedo(),
    {
        self.albedo
    }

    /// Diffuse scatter: the outgoing direction is the surface normal plus a
    /// sampled unit vector, supplied by the caller; if the sum cancels to the
    /// zero vector, the normal itself is substituted so the outgoing ray is
    /// never degenerate. The attenuation is the albedo, unconditionally --
    /// a diffuse surface never absorbs the path.
    pub fn scatter(&self, normal: &Vector3, random_unit: &Vector3) -> (res: (Vector3, Color))
        requires
            i64::MIN <= normal.x + random_unit.x <= i64::MAX,
            i64::MIN <= normal.y + random_unit.y <= i64::MAX,
            i64::MIN <= normal.z + random_unit.z <= i64::MAX,
        ensures
            normal@.add(random_unit@).is_zero() ==> res.0 == *normal,
            !normal@.add(random_unit@).is_zero() ==> res.0@ == normal@.add(random_unit@),
            res.1 == self.spec_albedo(),
    {
        let sum = normal.add(*random_unit);
        if sum.near_zero() {
            (*normal, self.albedo)
        } else {
            (sum, self.albedo)
        }
    }
}

/// Metallic surface: mirror reflection perturbed by a fuzz sphere; the fuzz
/// radius is an exact fraction clamped to [0, 1] at construction.
#[derive(Debug, Clone, Copy, PartialEq, Eq, Structural)]
pub struct Metal {
    albedo: Color,
    fuzz_num: i64,
    fuzz_den: i64,
}

impl Metal {
    pub closed spec fn spec_albedo(self) -> Color {
        self.albedo
    }

    /// Numerator of the clamped fuzz fraction.
    pub closed spec fn spec_fuzz_num(self) -> int {
        self.fuzz_num as int
    }

    /// Denominator of the clamped fuzz fraction.
    pub closed spec fn spec_fuzz_den(self) -> int {
        self.fuzz_den as int
    }

    /// The fuzz fraction is kept in [0, 1]: `0 <= fuzz_num <= fuzz_den`.
    pub open spec fn wf(self) -> bool {
        0 < self.spec_fuzz_den() && 0 <= self.spec_fuzz_num() <= self.spec_fuzz_den()
    }

    /// The fuzz argument `num / den` is clamped to [0, 1]: a negative fraction
    /// becomes 0, a fraction above one becomes 1, anything between is kept.
    pub fn new(albedo: Color, num: i64, den: i64) -> (m: Metal)
        requires
            0 < den,
        ensures
            m.wf(),
            m.spec_albedo() == albedo,
            m.spec_fuzz_den() == den,
            num < 0 ==> m.spec_fuzz_num() == 0,
            num > den ==> m.spec_fuzz_num() == den,
            0 <= num <= den ==> m.spec_fuzz_num() == num,
    {
        let safe_num: i64 = if num < 0 {
            0
        } else if num > den {
            den
        } else {
            num
        };
        Metal { albedo, fuzz_num: safe_num, fuzz_den: den }
    }

    pub fn albedo(&self) -> (c: Color)
        ensures
            c == self.spec_albedo(),
    {
        self.albedo
    }

    /// Numerator and denominator of the clamped fuzz fraction.
    pub fn fuzz(&self) -> (f: (i64, i64))
        ensures
            f.0 == self.spec_fuzz_num(),
            f.1 == self.spec_fuzz_den(),
    {
        (self.fuzz_num, self.fuzz_den)
    }

    /// Metallic scatter: the mirror reflection of the incoming direction,
    /// displaced by the fuzz offset (fuzz times a sampled point in the unit
    /// sphere, supplied by the caller), attenuated by the albedo. A displaced
    /// ray that does not leave the surface -- its direction does not oppose
    /// the incoming side -- is absorbed: nothing is returned.
    pub fn scatter(&self, incoming: &Vector3, normal: &Vector3, fuzz_offset: &Vector3) -> (res:
        Option<(Vector3, Color)>)
        requires
            incoming.in_bounds(),
            normal.in_bounds(),
            fuzz_offset.in_bounds(),
        ensures
            ({
                let out = incoming@.reflect(normal@).add(fuzz_offset@);
                &&& res.is_some() <==> out.dot(normal@) > 0
                &&& res matches Some((v, c)) ==> v@ == out && c == self.spec_albedo()
            }),
    {
        let reflected = incoming.reflect(normal);
        proof {
            crate::point::lemma_reflect_in_range(*incoming, *normal);
        }
        let out = reflected.add(*fuzz_offset);
        proof {
            crate::point::lemma_mul_bound(out.x as int, normal.x as int, i64::MAX as int, 1048576);
            crate::point::lemma_mul_bound(out.y as int, normal.y as int, i64::MAX as int, 1048576);
            crate::point::lemma_mul_bound(out.z as int, normal.z as int, i64::MAX as int, 1048576);
        }
        let d: i128 = (out.x as i128) * (normal.x as i128) + (out.y as i128) * (normal.y as i128)
            + (out.z as i128) * (normal.z as i128);
        if d > 0 {
            Some((out, self.albedo))
        } else {
            None
        }
    }
}

/// Transparent refractive surface, with an exact rational refractive index.
#[derive(Debug, Clone, Copy, PartialEq, Eq, Structural)]
pub struct Dialectric {
    ior_num: i64,
    ior_den: i64,
}

impl Dialectric {
    /// Numerator of the refractive index fraction.
    pub closed spec fn spec_ior_num(self) -> int {
        self.ior_num as int
    }

    /// Denominator of the refractive index fraction.
    pub closed spec fn spec_ior_den(self) -> int {
        self.ior_den as int
    }

    pub open spec fn wf(self) -> bool {
        0 < self.spec_ior_num() && 0 < self.spec_ior_den()
    }

    pub fn new(num: i64, den: i64) -> (m: Dialectric)
        requires
            0 < num,
            0 < den,
        ensures
            m.wf(),
            m.spec_ior_num() == num,
            m.spec_ior_den() == den,
    {
        Dialectric { ior_num: num, ior_den: den }
    }

    /// Numerator and denominator of the refractive index.
    pub fn index_of_refraction(&self) -> (f: (i64, i64))
        ensures
            f.0 == self.spec_ior_num(),
            f.1 == self.spec_ior_den(),
    {
        (self.ior_num, self.ior_den)
    }

    /// The ratio of refractive indices across the boundary: the reciprocal of
    /// the index when the ray enters from the front face, the index itself
    /// when it exits.
    pub fn refraction_ratio(&self, front_face: bool) -> (ratio: (i64, i64))
        requires
            self.wf(),
        ensures
            front_face ==> ratio.0 == self.spec_ior_den() && ratio.1 == self.spec_ior_num(),
            !front_face ==> ratio.0 == self.spec_ior_num() && ratio.1 == self.spec_ior_den(),
            ratio.0 > 0 && ratio.1 > 0,
    {
        if front_face {
            (self.ior_den, self.ior_num)
        } else {
            (self.ior_num, self.ior_den)
        }
    }

    /// Whether Snell's law admits no transmitted ray, forcing reflection:
    /// `ratio * sin(theta) > 1` where `sin^2 = 1 - cos^2`. With the cosine
    /// given as an exact fraction `cos_num / cos_den` in [0, 1], the test is
    /// decided exactly by cross-multiplied squares:
    /// `ratio_num^2 * (cos_den^2 - cos_num^2) > ratio_den^2 * cos_den^2`.
    pub fn cannot_refract(&self, front_face: bool, cos_num: i64, cos_den: i64) -> (r: bool)
        requires
            self.wf(),
            0 < cos_den <= 1000000,
            0 <= cos_num <= cos_den,
            self.spec_ior_num() <= 1000000,
            self.spec_ior_den() <= 1000000,
        ensures
            r == spec_total_internal_reflection(
                if front_face {
                    self.spec_ior_den()
                } else {
                    self.spec_ior_num()
                },
                if front_face {
                    self.spec_ior_num()
                } else {
                    self.spec_ior_den()
                },
                cos_num as int,
                cos_den as int,
            ),
    {
        let ratio = self.refraction_ratio(front_face);
        proof {
            lemma_tir_products_bounded(ratio.0 as int, ratio.1 as int, cos_num as int,
                cos_den as int);
        }
        let rn = ratio.0 as i128;
        let rd = ratio.1 as i128;
        let cn = cos_num as i128;
        let cd = cos_den as i128;
        rn * rn * (cd * cd - cn * cn) > rd * rd * (cd * cd)
    }
}

/// `(rn/rd) * sqrt(1 - (cn/cd)^2) > 1`, written without roots or quotients.
pub open spec fn spec_total_internal_reflection(rn: int, rd: int, cn: int, cd: int) -> bool {
    rn * rn * (cd * cd - cn * cn) > rd * rd * (cd * cd)
}

proof fn lemma_tir_products_bounded(rn: int, rd: int, cn: int, cd: int)
    by (nonlinear_arith)
    requires
        -1000000 <= rn <= 1000000,
        -1000000 <= rd <= 1000000,
        -1000000 <= cn <= 1000000,
        -1000000 <= cd <= 1000000,
    ensures
        rn * rn * (cd * cd - cn * cn) <= 2000000000000000000000000,
        rn * rn * (cd * cd - cn * cn) >= -2000000000000000000000000,
        rd * rd * (cd * cd) <= 2000000000000000000000000,
        rd * rd * (cd * cd) >= 0,
        rn * rn <= 1000000000000,
        rd * rd <= 1000000000000,
        cn * cn <= 1000000000000,
        cd * cd <= 1000000000000,
{
}

/// Closed set of material variants; each surface owns one.
#[derive(Debug, Clone, Copy, PartialEq, Eq, Structural)]
pub enum Material {
    Lambertian(LambertianMaterial),
    Metallic(Metal),
    Refractive(Dialectric),
}

} // verus!
