use crate::math::{
    abs_i, isqrt, isqrt_spec, lemma_abs_mul_bound, lemma_sq_le_isqrt, mul_div_scale, sdiv, tdiv,
};
use crate::units::{ONE_MICRO, POS_LIMIT};
use vstd::prelude::*;

verus! {

/// An immutable 3-component integer vector with componentwise value
/// semantics; components are fixed-point micro-based SI quantities.
#[derive(Clone, Copy, Debug, Default, PartialEq, Eq, Structural)]
pub struct Vec3 {
    pub x: i128,
    pub y: i128,
    pub z: i128,
}

/// The squared Euclidean norm, as a mathematical integer.
pub open spec fn norm2(v: Vec3) -> int {
    v.x * v.x + v.y * v.y + v.z * v.z
}

/// The Euclidean norm, rounded down to an integer.
pub open spec fn norm_of(v: Vec3) -> int {
    isqrt_spec(norm2(v))
}

/// All components within the symmetric working range given by bound.
pub open spec fn in_range(v: Vec3, bound: int) -> bool {
    -bound <= v.x <= bound && -bound <= v.y <= bound && -bound <= v.z <= bound
}

/// The Euclidean norm at nanometre resolution: the floor square root
/// of the squared norm rescaled to square nanometres. Normalization
/// divides by this finer norm so that even micrometre-scale vectors
/// keep their direction.
pub open spec fn norm_nano(v: Vec3) -> int {
    isqrt_spec(norm2(v) * 1_000_000)
}

/// Normalizing keeps the norm close to one for every non-zero vector
/// in range: the components that normalized() returns carry a
/// fixed-point norm within about a tenth of a percent of the unit
/// scale, between 999_996 and 1_001_000.
pub proof fn lemma_normalized_near_unit(v: Vec3, u: Vec3)
    requires
        in_range(v, POS_LIMIT as int),
        norm2(v) != 0,
        u.x == tdiv(v.x * 1_000_000_000, norm_nano(v)),
        u.y == tdiv(v.y * 1_000_000_000, norm_nano(v)),
        u.z == tdiv(v.z * 1_000_000_000, norm_nano(v)),
    ensures
        999_996 <= norm_of(u) <= 1_001_000,
{
    let n2 = norm2(v);
    let m = norm_nano(v);
    assert(v.x * v.x >= 0) by (nonlinear_arith);
    assert(v.y * v.y >= 0) by (nonlinear_arith);
    assert(v.z * v.z >= 0) by (nonlinear_arith);
    crate::math::lemma_isqrt_spec(n2 * 1_000_000);
    assert(1000 <= m) by (nonlinear_arith)
        requires
            0 <= m,
            1 <= n2,
            n2 * 1_000_000 < (m + 1) * (m + 1),
    ;
    assert((1000 * v.x) * (1000 * v.x) <= n2 * 1_000_000) by (nonlinear_arith)
        requires
            v.x * v.x <= n2,
    ;
    assert((1000 * v.y) * (1000 * v.y) <= n2 * 1_000_000) by (nonlinear_arith)
        requires
            v.y * v.y <= n2,
    ;
    assert((1000 * v.z) * (1000 * v.z) <= n2 * 1_000_000) by (nonlinear_arith)
        requires
            v.z * v.z <= n2,
    ;
    lemma_sq_le_isqrt(1000 * (v.x as int), n2 * 1_000_000, m);
    lemma_sq_le_isqrt(1000 * (v.y as int), n2 * 1_000_000, m);
    lemma_sq_le_isqrt(1000 * (v.z as int), n2 * 1_000_000, m);
    assert(abs_i(v.x as int) * 1_000_000_000 <= 1_000_000 * m);
    assert(abs_i(v.y as int) * 1_000_000_000 <= 1_000_000 * m);
    assert(abs_i(v.z as int) * 1_000_000_000 <= 1_000_000 * m);
    crate::math::lemma_tdiv_scale_squares(v.x as int, 1_000_000_000, m, 1_000_000);
    crate::math::lemma_tdiv_scale_squares(v.y as int, 1_000_000_000, m, 1_000_000);
    crate::math::lemma_tdiv_scale_squares(v.z as int, 1_000_000_000, m, 1_000_000);
    let m2 = norm2(u);
    assert(m2 * (m * m) <= (n2 * 1_000_000) * 1_000_000_000_000) by (nonlinear_arith)
        requires
            m2 == u.x * u.x + u.y * u.y + u.z * u.z,
            n2 == v.x * v.x + v.y * v.y + v.z * v.z,
            u.x * u.x * (m * m) <= v.x * v.x * (1_000_000_000 * 1_000_000_000),
            u.y * u.y * (m * m) <= v.y * v.y * (1_000_000_000 * 1_000_000_000),
            u.z * u.z * (m * m) <= v.z * v.z * (1_000_000_000 * 1_000_000_000),
    ;
    assert(m2 <= 1_002_001_000_000) by (nonlinear_arith)
        requires
            m2 * (m * m) <= (n2 * 1_000_000) * 1_000_000_000_000,
            n2 * 1_000_000 < (m + 1) * (m + 1),
            1000 <= m,
    ;
    assert((n2 * 1_000_000) * 1_000_000_000_000 < (m2 + 6_000_000 + 3) * (m * m))
        by (nonlinear_arith)
        requires
            m2 == u.x * u.x + u.y * u.y + u.z * u.z,
            n2 == v.x * v.x + v.y * v.y + v.z * v.z,
            v.x * v.x * (1_000_000_000 * 1_000_000_000) < (u.x * u.x + 2 * 1_000_000 + 1) * (m
                * m),
            v.y * v.y * (1_000_000_000 * 1_000_000_000) < (u.y * u.y + 2 * 1_000_000 + 1) * (m
                * m),
            v.z * v.z * (1_000_000_000 * 1_000_000_000) < (u.z * u.z + 2 * 1_000_000 + 1) * (m
                * m),
    ;
    assert(999_993_999_997 < m2) by (nonlinear_arith)
        requires
            (n2 * 1_000_000) * 1_000_000_000_000 < (m2 + 6_000_000 + 3) * (m * m),
            m * m <= n2 * 1_000_000,
            1 <= m,
    ;
    crate::math::lemma_isqrt_spec(m2);
    let mu = isqrt_spec(m2);
    assert(mu <= 1_001_000) by (nonlinear_arith)
        requires
            0 <= mu,
            mu * mu <= m2,
            m2 <= 1_002_001_000_000,
    ;
    assert(999_996 <= mu) by (nonlinear_arith)
        requires
            0 <= mu,
            m2 < (mu + 1) * (mu + 1),
            999_993_999_997 < m2,
    ;
}

impl Vec3 {
    pub fn new(x: i128, y: i128, z: i128) -> (v: Vec3)
        ensures
            v.x == x,
            v.y == y,
            v.z == z,
    {
        Vec3 { x, y, z }
    }

    /// The Euclidean norm sqrt(x^2 + y^2 + z^2), rounded down; it also
    /// bounds every single component in magnitude.
    pub fn norm(&self) -> (r: i128)
        requires
            in_range(*self, POS_LIMIT as int),
        ensures
            r == norm_of(*self),
            0 <= r <= 77_000_000_000_000,
            r * r <= norm2(*self) < (r + 1) * (r + 1),
            -r <= self.x <= r,
            -r <= self.y <= r,
            -r <= self.z <= r,
    {
        proof {
            lemma_abs_mul_bound(self.x as int, self.x as int, POS_LIMIT as int, POS_LIMIT as int);
            lemma_abs_mul_bound(self.y as int, self.y as int, POS_LIMIT as int, POS_LIMIT as int);
            lemma_abs_mul_bound(self.z as int, self.z as int, POS_LIMIT as int, POS_LIMIT as int);
            assert(self.x * self.x >= 0) by (nonlinear_arith);
            assert(self.y * self.y >= 0) by (nonlinear_arith);
            assert(self.z * self.z >= 0) by (nonlinear_arith);
        }
        let n2 = self.x * self.x + self.y * self.y + self.z * self.z;
        let r = isqrt(n2);
        proof {
            lemma_sq_le_isqrt(self.x as int, n2 as int, r as int);
            lemma_sq_le_isqrt(self.y as int, n2 as int, r as int);
            lemma_sq_le_isqrt(self.z as int, n2 as int, r as int);
            assert(r <= 77_000_000_000_000) by (nonlinear_arith)
                requires
                    0 <= r,
                    r * r <= n2,
                    n2 <= 3 * 35_184_372_088_832 * 35_184_372_088_832,
            ;
        }
        r
    }

    /// The vector scaled to fixed-point unit length: each component
    /// becomes c * 1e9 / norm_nano, the norm measured at nanometre
    /// resolution so that even micrometre-scale vectors keep their
    /// direction; the zero vector is returned unchanged, as the
    /// documented fallback for an undefined direction.
    pub fn normalized(&self) -> (u: Vec3)
        requires
            in_range(*self, POS_LIMIT as int),
        ensures
            norm2(*self) == 0 ==> u == *self,
            norm2(*self) != 0 ==> u.x == tdiv(self.x * 1_000_000_000, norm_nano(*self)),
            norm2(*self) != 0 ==> u.y == tdiv(self.y * 1_000_000_000, norm_nano(*self)),
            norm2(*self) != 0 ==> u.z == tdiv(self.z * 1_000_000_000, norm_nano(*self)),
            in_range(u, ONE_MICRO as int),
    {
        proof {
            lemma_abs_mul_bound(self.x as int, self.x as int, POS_LIMIT as int, POS_LIMIT as int);
            lemma_abs_mul_bound(self.y as int, self.y as int, POS_LIMIT as int, POS_LIMIT as int);
            lemma_abs_mul_bound(self.z as int, self.z as int, POS_LIMIT as int, POS_LIMIT as int);
            assert(self.x * self.x >= 0) by (nonlinear_arith);
            assert(self.y * self.y >= 0) by (nonlinear_arith);
            assert(self.z * self.z >= 0) by (nonlinear_arith);
        }
        let n2 = self.x * self.x + self.y * self.y + self.z * self.z;
        if n2 == 0 {
            proof {
                assert(self.x == 0 && self.y == 0 && self.z == 0) by (nonlinear_arith)
                    requires
                        self.x * self.x + self.y * self.y + self.z * self.z == 0,
                ;
            }
            *self
        } else {
            let radicand = n2 * 1_000_000;
            let m = isqrt(radicand);
            proof {
                assert((1000 * self.x) * (1000 * self.x) <= radicand as int) by (nonlinear_arith)
                    requires
                        self.x * self.x <= n2,
                        radicand == n2 * 1_000_000,
                ;
                assert((1000 * self.y) * (1000 * self.y) <= radicand as int) by (nonlinear_arith)
                    requires
                        self.y * self.y <= n2,
                        radicand == n2 * 1_000_000,
                ;
                assert((1000 * self.z) * (1000 * self.z) <= radicand as int) by (nonlinear_arith)
                    requires
                        self.z * self.z <= n2,
                        radicand == n2 * 1_000_000,
                ;
                lemma_sq_le_isqrt(1000 * (self.x as int), radicand as int, m as int);
                lemma_sq_le_isqrt(1000 * (self.y as int), radicand as int, m as int);
                lemma_sq_le_isqrt(1000 * (self.z as int), radicand as int, m as int);
                assert(1 <= m) by (nonlinear_arith)
                    requires
                        0 <= m,
                        1 <= n2,
                        (radicand as int) < ((m as int) + 1) * ((m as int) + 1),
                        radicand == n2 * 1_000_000,
                ;
                assert((m as int) <= 61_000_000_000_000_000) by (nonlinear_arith)
                    requires
                        0 <= m,
                        (m as int) * (m as int) <= radicand as int,
                        (radicand as int) <= 3_713_820_117_856_140_824_697_372_672_000_000,
                ;
                assert(abs_i(self.x as int) * 1_000_000_000 <= 1_000_000 * (m as int));
                assert(abs_i(self.y as int) * 1_000_000_000 <= 1_000_000 * (m as int));
                assert(abs_i(self.z as int) * 1_000_000_000 <= 1_000_000 * (m as int));
                crate::math::lemma_tdiv_scale_squares(
                    self.x as int,
                    1_000_000_000,
                    m as int,
                    1_000_000,
                );
                crate::math::lemma_tdiv_scale_squares(
                    self.y as int,
                    1_000_000_000,
                    m as int,
                    1_000_000,
                );
                crate::math::lemma_tdiv_scale_squares(
                    self.z as int,
                    1_000_000_000,
                    m as int,
                    1_000_000,
                );
            }
            let ux = mul_div_scale(self.x, 1_000_000_000, m);
            let uy = mul_div_scale(self.y, 1_000_000_000, m);
            let uz = mul_div_scale(self.z, 1_000_000_000, m);
            Vec3 { x: ux, y: uy, z: uz }
        }
    }

    /// The dot product x1*x2 + y1*y2 + z1*z2.
    pub fn dot(&self, r: &Vec3) -> (d: i128)
        requires
            in_range(*self, POS_LIMIT as int),
            in_range(*r, POS_LIMIT as int),
        ensures
            d == self.x * r.x + self.y * r.y + self.z * r.z,
    {
        proof {
            lemma_abs_mul_bound(self.x as int, r.x as int, POS_LIMIT as int, POS_LIMIT as int);
            lemma_abs_mul_bound(self.y as int, r.y as int, POS_LIMIT as int, POS_LIMIT as int);
            lemma_abs_mul_bound(self.z as int, r.z as int, POS_LIMIT as int, POS_LIMIT as int);
        }
        self.x * r.x + self.y * r.y + self.z * r.z
    }

    /// The cross product, componentwise (y1*z2 - z1*y2, z1*x2 - x1*z2,
    /// x1*y2 - y1*x2).
    pub fn cross(&self, r: &Vec3) -> (c: Vec3)
        requires
            in_range(*self, POS_LIMIT as int),
            in_range(*r, POS_LIMIT as int),
        ensures
            c.x == self.y * r.z - self.z * r.y,
            c.y == self.z * r.x - self.x * r.z,
            c.z == self.x * r.y - self.y * r.x,
    {
        proof {
            lemma_abs_mul_bound(self.x as int, r.y as int, POS_LIMIT as int, POS_LIMIT as int);
            lemma_abs_mul_bound(self.x as int, r.z as int, POS_LIMIT as int, POS_LIMIT as int);
            lemma_abs_mul_bound(self.y as int, r.x as int, POS_LIMIT as int, POS_LIMIT as int);
            lemma_abs_mul_bound(self.y as int, r.z as int, POS_LIMIT as int, POS_LIMIT as int);
            lemma_abs_mul_bound(self.z as int, r.x as int, POS_LIMIT as int, POS_LIMIT as int);
            lemma_abs_mul_bound(self.z as int, r.y as int, POS_LIMIT as int, POS_LIMIT as int);
        }
        Vec3 {
            x: self.y * r.z - self.z * r.y,
            y: self.z * r.x - self.x * r.z,
            z: self.x * r.y - self.y * r.x,
        }
    }

    /// Componentwise sum.
    pub fn add(self, rhs: Vec3) -> (s: Vec3)
        requires
            i128::MIN <= self.x + rhs.x <= i128::MAX,
            i128::MIN <= self.y + rhs.y <= i128::MAX,
            i128::MIN <= self.z + rhs.z <= i128::MAX,
        ensures
            s.x == self.x + rhs.x,
            s.y == self.y + rhs.y,
            s.z == self.z + rhs.z,
    {
        Vec3 { x: self.x + rhs.x, y: self.y + rhs.y, z: self.z + rhs.z }
    }

    /// Componentwise difference.
    pub fn sub(self, rhs: Vec3) -> (d: Vec3)
        requires
            i128::MIN <= self.x - rhs.x <= i128::MAX,
            i128::MIN <= self.y - rhs.y <= i128::MAX,
            i128::MIN <= self.z - rhs.z <= i128::MAX,
        ensures
            d.x == self.x - rhs.x,
            d.y == self.y - rhs.y,
            d.z == self.z - rhs.z,
    {
        Vec3 { x: self.x - rhs.x, y: self.y - rhs.y, z: self.z - rhs.z }
    }

    /// The vector scaled by an integer factor.
    pub fn mul(self, s: i128) -> (p: Vec3)
        requires
            i128::MIN <= self.x * s <= i128::MAX,
            i128::MIN <= self.y * s <= i128::MAX,
            i128::MIN <= self.z * s <= i128::MAX,
        ensures
            p.x == self.x * s,
            p.y == self.y * s,
            p.z == self.z * s,
    {
        Vec3 { x: self.x * s, y: self.y * s, z: self.z * s }
    }

    /// The vector divided componentwise by a non-zero integer scalar,
    /// rounding each quotient toward zero.
    pub fn div(self, s: i128) -> (q: Vec3)
        requires
            s != 0,
            s < 0 ==> s > i128::MIN && self.x > i128::MIN && self.y > i128::MIN && self.z
                > i128::MIN,
        ensures
            q.x == sdiv(self.x as int, s as int),
            q.y == sdiv(self.y as int, s as int),
            q.z == sdiv(self.z as int, s as int),
    {
        if s > 0 {
            Vec3 { x: self.x / s, y: self.y / s, z: self.z / s }
        } else {
            let t = -s;
            proof {
                vstd::arithmetic::div_mod::lemma_div_pos_is_pos(abs_i(self.x as int), t as int);
                vstd::arithmetic::div_mod::lemma_div_nonincreasing(abs_i(self.x as int), t as int);
                vstd::arithmetic::div_mod::lemma_div_pos_is_pos(abs_i(self.y as int), t as int);
                vstd::arithmetic::div_mod::lemma_div_nonincreasing(abs_i(self.y as int), t as int);
                vstd::arithmetic::div_mod::lemma_div_pos_is_pos(abs_i(self.z as int), t as int);
                vstd::arithmetic::div_mod::lemma_div_nonincreasing(abs_i(self.z as int), t as int);
            }
            Vec3 { x: -(self.x / t), y: -(self.y / t), z: -(self.z / t) }
        }
    }
}

} // verus!
