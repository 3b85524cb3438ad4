//! Three-component vectors and points over exact integer coordinates.
//!
//! All algebraic operations (sum, difference, scaling, dot and cross product,
//! reflection) are closed over the integers and carry exact contracts. Lengths
//! are irrational in general, so `length` returns the floor of the true length
//! together with a two-sided squared bound that pins it down exactly.

use vstd::prelude::*;

verus! {

/// Largest coordinate magnitude the geometric kernel accepts; keeps every
/// product chain in the intersection code inside the machine integer types.
pub const COORD_BOUND: i64 = 1048576;

/// Mathematical value of a vector: a triple of unbounded integers.
pub ghost struct Vec3i {
    pub x: int,
    pub y: int,
    pub z: int,
}

impl Vec3i {
    pub open spec fn add(self, o: Vec3i) -> Vec3i {
        Vec3i { x: self.x + o.x, y: self.y + o.y, z: self.z + o.z }
    }

    pub open spec fn sub(self, o: Vec3i) -> Vec3i {
        Vec3i { x: self.x - o.x, y: self.y - o.y, z: self.z - o.z }
    }

    pub open spec fn neg(self) -> Vec3i {
        Vec3i { x: -self.x, y: -self.y, z: -self.z }
    }

    pub open spec fn scale(self, k: int) -> Vec3i {
        Vec3i { x: k * self.x, y: k * self.y, z: k * self.z }
    }

    pub open spec fn dot(self, o: Vec3i) -> int {
        self.x * o.x + self.y * o.y + self.z * o.z
    }

    pub open spec fn cross(self, o: Vec3i) -> Vec3i {
        Vec3i {
            x: self.y * o.z - self.z * o.y,
            y: self.z * o.x - self.x * o.z,
            z: self.x * o.y - self.y * o.x,
        }
    }

    pub open spec fn norm2(self) -> int {
        self.dot(self)
    }

    pub open spec fn is_zero(self) -> bool {
        self.x == 0 && self.y == 0 && self.z == 0
    }

    /// Mirror image across the plane orthogonal to `n`; for a unit `n` this is
    /// `self - 2 (self . n) n`.
    pub open spec fn reflect(self, n: Vec3i) -> Vec3i {
        self.sub(n.scale(2 * self.dot(n)))
    }
}

/// A squared length is never negative, and vanishes only on the zero vector.
pub proof fn lemma_norm2_nonneg(v: Vec3i)
    by (nonlinear_arith)
    ensures
        v.norm2() >= 0,
        v.norm2() == 0 <==> v.is_zero(),
{
}

/// Reflection in a unit normal is an involution: reflecting twice gives the
/// original vector back.
pub proof fn lemma_reflect_involution(v: Vec3i, n: Vec3i)
    requires
        n.dot(n) == 1,
    ensures
        v.reflect(n).reflect(n) == v,
{
    let d = v.dot(n);
    let w = v.reflect(n);
    assert(w.dot(n) == -d) by (nonlinear_arith)
        requires
            n.x * n.x + n.y * n.y + n.z * n.z == 1,
            d == v.x * n.x + v.y * n.y + v.z * n.z,
            w.x == v.x - 2 * d * n.x,
            w.y == v.y - 2 * d * n.y,
            w.z == v.z - 2 * d * n.z,
    ;
    assert(w.reflect(n) == v) by (nonlinear_arith)
        requires
            w.dot(n) == -d,
            w.x == v.x - 2 * d * n.x,
            w.y == v.y - 2 * d * n.y,
            w.z == v.z - 2 * d * n.z,
            w.reflect(n).x == w.x - 2 * w.dot(n) * n.x,
            w.reflect(n).y == w.y - 2 * w.dot(n) * n.y,
            w.reflect(n).z == w.z - 2 * w.dot(n) * n.z,
    ;
}

/// A vector parallel to a unit normal is reflected to its own negation.
pub proof fn lemma_reflect_parallel(k: int, n: Vec3i)
    requires
        n.dot(n) == 1,
    ensures
        n.scale(k).reflect(n) == n.scale(k).neg(),
{
    let v = n.scale(k);
    assert(v.dot(n) == k) by (nonlinear_arith)
        requires
            n.x * n.x + n.y * n.y + n.z * n.z == 1,
            v.x == k * n.x,
            v.y == k * n.y,
            v.z == k * n.z,
    ;
    assert(v.reflect(n) == v.neg()) by (nonlinear_arith)
        requires
            v.dot(n) == k,
            v.x == k * n.x,
            v.y == k * n.y,
            v.z == k * n.z,
            v.reflect(n).x == v.x - 2 * (v.x * n.x + v.y * n.y + v.z * n.z) * n.x,
            v.reflect(n).y == v.y - 2 * (v.x * n.x + v.y * n.y + v.z * n.z) * n.y,
            v.reflect(n).z == v.z - 2 * (v.x * n.x + v.y * n.y + v.z * n.z) * n.z,
    ;
}

/// At matching refractive indices (ratio one), Snell's construction returns
/// the incident direction unchanged: with `cos = -(uv . n)`, the
/// perpendicular part is `uv + cos n`, the square under the root collapses to
/// the perfect square `cos^2` -- so the parallel part is exactly `-cos n` --
/// and the two parts sum back to `uv`.
pub proof fn lemma_refract_matched_indices(uv: Vec3i, n: Vec3i)
    requires
        uv.dot(uv) == 1,
        n.dot(n) == 1,
    ensures
        ({
            let cos = -uv.dot(n);
            let perp = uv.add(n.scale(cos));
            &&& 1 - perp.norm2() == cos * cos
            &&& perp.add(n.scale(-cos)) == uv
        }),
{
    let cos = -uv.dot(n);
    let perp = uv.add(n.scale(cos));
    assert(perp.norm2() == 1 - cos * cos) by (nonlinear_arith)
        requires
            uv.x * uv.x + uv.y * uv.y + uv.z * uv.z == 1,
            n.x * n.x + n.y * n.y + n.z * n.z == 1,
            cos == -(uv.x * n.x + uv.y * n.y + uv.z * n.z),
            perp.x == uv.x + cos * n.x,
            perp.y == uv.y + cos * n.y,
            perp.z == uv.z + cos * n.z,
            perp.norm2() == perp.x * perp.x + perp.y * perp.y + perp.z * perp.z,
    ;
    assert(perp.add(n.scale(-cos)) == uv) by (nonlinear_arith)
        requires
            perp.x == uv.x + cos * n.x,
            perp.y == uv.y + cos * n.y,
            perp.z == uv.z + cos * n.z,
            perp.add(n.scale(-cos)).x == perp.x + (-cos) * n.x,
            perp.add(n.scale(-cos)).y == perp.y + (-cos) * n.y,
            perp.add(n.scale(-cos)).z == perp.z + (-cos) * n.z,
    ;
}

/// Three-component vector with exact integer coordinates.
#[derive(Debug, Clone, Copy, PartialEq, Eq, Structural)]
pub struct Vector3 {
    pub x: i64,
    pub y: i64,
    pub z: i64,
}

/// Points share the vector representation.
pub type Point3 = Vector3;

impl View for Vector3 {
    type V = Vec3i;

    open spec fn view(&self) -> Vec3i {
        Vec3i { x: self.x as int, y: self.y as int, z: self.z as int }
    }
}

impl Vector3 {
    /// Coordinates small enough for the kernel's product chains.
    pub open spec fn in_bounds(self) -> bool {
        &&& -COORD_BOUND <= self.x <= COORD_BOUND
        &&& -COORD_BOUND <= self.y <= COORD_BOUND
        &&& -COORD_BOUND <= self.z <= COORD_BOUND
    }

    pub fn new(x: i64, y: i64, z: i64) -> (v: Vector3)
        ensures
            v == (Vector3 { x, y, z }),
    {
        Vector3 { x, y, z }
    }

    pub fn add(self, rhs: Vector3) -> (r: Vector3)
        requires
            i64::MIN <= self.x + rhs.x <= i64::MAX,
            i64::MIN <= self.y + rhs.y <= i64::MAX,
            i64::MIN <= self.z + rhs.z <= i64::MAX,
        ensures
            r@ == self@.add(rhs@),
    {
        Vector3 { x: self.x + rhs.x, y: self.y + rhs.y, z: self.z + rhs.z }
    }

    pub fn sub(self, rhs: Vector3) -> (r: Vector3)
        requires
            i64::MIN <= self.x - rhs.x <= i64::MAX,
            i64::MIN <= self.y - rhs.y <= i64::MAX,
            i64::MIN <= self.z - rhs.z <= i64::MAX,
        ensures
            r@ == self@.sub(rhs@),
    {
        Vector3 { x: self.x - rhs.x, y: self.y - rhs.y, z: self.z - rhs.z }
    }

    /// Scaling by an integer factor.
    pub fn mul(self, t: i64) -> (r: Vector3)
        requires
            self.in_bounds(),
            -COORD_BOUND <= t <= COORD_BOUND,
        ensures
            r@ == self@.scale(t as int),
    {
        proof {
            lemma_product_bound(t, self.x);
            lemma_product_bound(t, self.y);
            lemma_product_bound(t, self.z);
        }
        Vector3 { x: t * self.x, y: t * self.y, z: t * self.z }
    }

    pub fn length_squared(&self) -> (r: i64)
        requires
            self.in_bounds(),
        ensures
            r == self@.norm2(),
            r >= 0,
    {
        proof {
            lemma_product_bound(self.x, self.x);
            lemma_product_bound(self.y, self.y);
            lemma_product_bound(self.z, self.z);
            lemma_norm2_nonneg(self@);
        }
        self.x * self.x + self.y * self.y + self.z * self.z
    }

    /// Floor of the Euclidean length: the result is the unique integer whose
    /// square is at most the squared length, which the next square exceeds.
    pub fn length(&self) -> (r: i64)
        requires
            self.in_bounds(),
        ensures
            0 <= r,
            r * r <= self@.norm2(),
            self@.norm2() < (r + 1) * (r + 1),
    {
        let ls = self.length_squared();
        proof {
            lemma_dot_bound(*self, *self);
        }
        let root = isqrt(ls as u128);
        proof {
            assert(root * root <= ls);
            assert(root <= COORD_BOUND * 2) by (nonlinear_arith)
                requires
                    root >= 0,
                    root * root <= ls,
                    ls <= 3 * COORD_BOUND * COORD_BOUND,
                    COORD_BOUND == 1048576,
            ;
        }
        root as i64
    }

    pub fn dot_product(&self, other: &Vector3) -> (r: i64)
        requires
            self.in_bounds(),
            other.in_bounds(),
        ensures
            r == self@.dot(other@),
    {
        proof {
            lemma_product_bound(self.x, other.x);
            lemma_product_bound(self.y, other.y);
            lemma_product_bound(self.z, other.z);
        }
        self.x * other.x + self.y * other.y + self.z * other.z
    }

    pub fn cross_product(&self, other: &Vector3) -> (r: Vector3)
        requires
            self.in_bounds(),
            other.in_bounds(),
        ensures
            r@ == self@.cross(other@),
    {
        proof {
            lemma_product_bound(self.y, other.z);
            lemma_product_bound(self.z, other.y);
            lemma_product_bound(self.z, other.x);
            lemma_product_bound(self.x, other.z);
            lemma_product_bound(self.x, other.y);
            lemma_product_bound(self.y, other.x);
        }
        Vector3 {
            x: self.y * other.z - self.z * other.y,
            y: self.z * other.x - self.x * other.z,
            z: self.x * other.y - self.y * other.x,
        }
    }

    /// In exact coordinates the degenerate-direction test is exact: a vector is
    /// "near zero" precisely when it is the zero vector.
    pub fn near_zero(&self) -> (r: bool)
        ensures
            r == self@.is_zero(),
    {
        self.x == 0 && self.y == 0 && self.z == 0
    }

    /// `v - 2 (v . n) n`: the mirror image of `v` across the plane orthogonal
    /// to `n`, exact over the integers.
    pub fn reflect(&self, n: &Vector3) -> (r: Vector3)
        requires
            self.in_bounds(),
            n.in_bounds(),
        ensures
            r@ == self@.reflect(n@),
    {
        let d = self.dot_product(n);
        proof {
            lemma_dot_bound(*self, *n);
            lemma_reflect_term_bound(2 * d, n.x);
            lemma_reflect_term_bound(2 * d, n.y);
            lemma_reflect_term_bound(2 * d, n.z);
        }
        Vector3 {
            x: self.x - 2 * d * n.x,
            y: self.y - 2 * d * n.y,
            z: self.z - 2 * d * n.z,
        }
    }
}

/// Product bound from factor bounds, for overflow reasoning.
pub proof fn lemma_mul_bound(a: int, b: int, ba: int, bb: int)
    by (nonlinear_arith)
    requires
        0 <= ba,
        0 <= bb,
        -ba <= a <= ba,
        -bb <= b <= bb,
    ensures
        -(ba * bb) <= a * b <= ba * bb,
{
}

/// Componentwise range of an exact reflection of bounded vectors.
pub proof fn lemma_reflect_in_range(v: Vector3, n: Vector3)
    requires
        v.in_bounds(),
        n.in_bounds(),
    ensures
        ({
            let r = v@.reflect(n@);
            &&& -8070450532247928832 <= r.x <= 8070450532247928832
            &&& -8070450532247928832 <= r.y <= 8070450532247928832
            &&& -8070450532247928832 <= r.z <= 8070450532247928832
        }),
{
    let r = v@.reflect(n@);
    let d = v@.dot(n@);
    assert(r.x == v.x - 2 * d * n.x);
    assert(r.y == v.y - 2 * d * n.y);
    assert(r.z == v.z - 2 * d * n.z);
    lemma_dot_bound(v, n);
    assert(-8070450532247928832 <= v.x - 2 * d * n.x <= 8070450532247928832) by (nonlinear_arith)
        requires
            -1048576 <= v.x <= 1048576,
            -1048576 <= n.x <= 1048576,
            -3 * 1048576 * 1048576 <= d <= 3 * 1048576 * 1048576,
    ;
    assert(-8070450532247928832 <= v.y - 2 * d * n.y <= 8070450532247928832) by (nonlinear_arith)
        requires
            -1048576 <= v.y <= 1048576,
            -1048576 <= n.y <= 1048576,
            -3 * 1048576 * 1048576 <= d <= 3 * 1048576 * 1048576,
    ;
    assert(-8070450532247928832 <= v.z - 2 * d * n.z <= 8070450532247928832) by (nonlinear_arith)
        requires
            -1048576 <= v.z <= 1048576,
            -1048576 <= n.z <= 1048576,
            -3 * 1048576 * 1048576 <= d <= 3 * 1048576 * 1048576,
    ;
}

proof fn lemma_product_bound(a: i64, b: i64)
    by (nonlinear_arith)
    requires
        -COORD_BOUND <= a <= COORD_BOUND,
        -COORD_BOUND <= b <= COORD_BOUND,
    ensures
        -COORD_BOUND * COORD_BOUND <= a * b <= COORD_BOUND * COORD_BOUND,
{
}

/// A dot product of bounded vectors is bounded by three times the square of
/// the coordinate bound.
pub proof fn lemma_dot_bound(v: Vector3, w: Vector3)
    requires
        v.in_bounds(),
        w.in_bounds(),
    ensures
        -3 * COORD_BOUND * COORD_BOUND <= v@.dot(w@) <= 3 * COORD_BOUND * COORD_BOUND,
{
    lemma_product_bound(v.x, w.x);
    lemma_product_bound(v.y, w.y);
    lemma_product_bound(v.z, w.z);
}

proof fn lemma_reflect_term_bound(d2: int, c: i64)
    by (nonlinear_arith)
    requires
        -6 * COORD_BOUND * COORD_BOUND <= d2 <= 6 * COORD_BOUND * COORD_BOUND,
        -COORD_BOUND <= c <= COORD_BOUND,
        COORD_BOUND == 1048576,
    ensures
        -6 * COORD_BOUND * COORD_BOUND * COORD_BOUND <= d2 * c
            <= 6 * COORD_BOUND * COORD_BOUND * COORD_BOUND,
{
}

/// `r` is the floor of the square root of `n`.
pub open spec fn is_sqrt_floor(n: int, r: int) -> bool {
    0 <= r && r * r <= n && n < (r + 1) * (r + 1)
}

/// Floor of the square root of a nonnegative integer, as a specification
/// value; `lemma_sqrt_floor_exists` shows it satisfies `is_sqrt_floor`.
pub open spec fn sqrt_floor(n: int) -> int {
    choose|r: int| is_sqrt_floor(n, r)
}

pub proof fn lemma_sqrt_floor_exists(n: int)
    requires
        0 <= n,
    ensures
        is_sqrt_floor(n, sqrt_floor(n)),
    decreases n,
{
    if n == 0 {
        assert(is_sqrt_floor(0, 0));
    } else {
        lemma_sqrt_floor_exists(n - 1);
        let r = sqrt_floor(n - 1);
        if (r + 1) * (r + 1) <= n {
            assert(n == (r + 1) * (r + 1));
            assert(n < (r + 2) * (r + 2)) by (nonlinear_arith)
                requires
                    n == (r + 1) * (r + 1),
                    r >= 0,
            ;
            assert(is_sqrt_floor(n, r + 1));
        } else {
            assert(is_sqrt_floor(n, r));
        }
    }
}

pub proof fn lemma_sqrt_floor_unique(n: int, r: int)
    requires
        0 <= n,
        is_sqrt_floor(n, r),
    ensures
        r == sqrt_floor(n),
{
    lemma_sqrt_floor_exists(n);
    let s = sqrt_floor(n);
    if r < s {
        assert((r + 1) * (r + 1) <= s * s) by (nonlinear_arith)
            requires
                0 <= r,
                r < s,
        ;
    }
    if s < r {
        assert((s + 1) * (s + 1) <= r * r) by (nonlinear_arith)
            requires
                0 <= s,
                s < r,
        ;
    }
}

/// Round trip of the square-root floor, the exact form of gamma correction
/// followed by squaring: the square of the root recovers the value within the
/// floor error, and exactly when the value is a perfect square.
pub proof fn lemma_sqrt_floor_round_trip(n: int)
    requires
        0 <= n,
    ensures
        sqrt_floor(n) * sqrt_floor(n) <= n < (sqrt_floor(n) + 1) * (sqrt_floor(n) + 1),
        forall|r: int| 0 <= r && n == #[trigger] (r * r) ==> sqrt_floor(n) == r,
{
    lemma_sqrt_floor_exists(n);
    assert forall|r: int| 0 <= r && n == #[trigger] (r * r) implies sqrt_floor(n) == r by {
        assert(n < (r + 1) * (r + 1)) by (nonlinear_arith)
            requires
                0 <= r,
                n == r * r,
        ;
        lemma_sqrt_floor_unique(n, r);
    }
}

/// Floor of the integer square root.
pub fn isqrt(n: u128) -> (r: u128)
    ensures
        r * r <= n,
        n < (r + 1) * (r + 1),
{
    if n == 0 {
        return 0;
    }
    let cap: u128 = 0xFFFF_FFFF_FFFF_FFFF;
    let mut lo: u128 = 0;
    let mut hi: u128 = if n < cap {
        n
    } else {
        cap
    };
    proof {
        assert(n < (hi + 1) * (hi + 1)) by (nonlinear_arith)
            requires
                hi == if n < 0xFFFF_FFFF_FFFF_FFFFu128 {
                    n
                } else {
                    0xFFFF_FFFF_FFFF_FFFFu128
                },
                n <= u128::MAX,
        ;
    }
    while lo < hi
        invariant
            lo <= hi,
            hi <= 0xFFFF_FFFF_FFFF_FFFF,
            lo * lo <= n,
            n < (hi + 1) * (hi + 1),
        decreases hi - lo,
    {
        let mid: u128 = lo + (hi - lo + 1) / 2;
        proof {
            assert(lo < mid <= hi);
            assert(mid * mid <= 0xFFFF_FFFF_FFFF_FFFF * 0xFFFF_FFFF_FFFF_FFFFu128)
                by (nonlinear_arith)
                requires
                    0 <= mid <= 0xFFFF_FFFF_FFFF_FFFFu128,
            ;
        }
        if mid * mid <= n {
            lo = mid;
        } else {
            hi = mid - 1;
        }
    }
    lo
}

} // verus!
