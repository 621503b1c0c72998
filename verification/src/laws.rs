use crate::body::BlackHole;
use crate::math::{isqrt, isqrt_spec, lemma_abs_mul_bound, min_i, mul_div_scale, tdiv};
use crate::units::{accel_mag, gm_femto, rs_of, ACC_CAP, MASS_LIMIT, POS_LIMIT};
use crate::vec3::{in_range, norm2, norm_of, Vec3};
use vstd::prelude::*;

verus! {

/// The two interchangeable acceleration laws, selected once by the
/// caller and passed into the integrator for the life of a run.
#[derive(Clone, Copy, Debug, PartialEq, Eq, Structural)]
pub enum AccelLaw {
    Newtonian,
    PaczynskiWiita,
}

/// One component of an attraction of magnitude mag toward the centre:
/// the position component scaled by -mag / r, rounded toward zero.
pub open spec fn accel_comp(mag: int, c: int, r: int) -> int {
    -tdiv(mag * c, r)
}

/// The Newtonian acceleration of magnitude G*mass/r^2 along -pos/r,
/// componentwise; the zero vector at the origin, where the direction
/// is undefined.
pub open spec fn newton_accel_of(p: Vec3, mass_kg: int) -> (int, int, int) {
    let n2 = norm2(p);
    if n2 == 0 {
        (0, 0, 0)
    } else {
        let r = isqrt_spec(n2);
        let mag = accel_mag(gm_femto(mass_kg), n2);
        (accel_comp(mag, p.x as int, r), accel_comp(mag, p.y as int, r), accel_comp(
            mag,
            p.z as int,
            r,
        ))
    }
}

/// The Paczynski-Wiita acceleration of magnitude G*mass/(r - r_s)^2
/// along -pos/r; the zero vector at or inside the horizon, where the
/// law saturates instead of diverging.
pub open spec fn pw_accel_of(p: Vec3, mass_kg: int) -> (int, int, int) {
    let r = norm_of(p);
    let rs = rs_of(mass_kg);
    if r <= rs {
        (0, 0, 0)
    } else {
        let d = r - rs;
        let mag = accel_mag(gm_femto(mass_kg), d * d);
        (accel_comp(mag, p.x as int, r), accel_comp(mag, p.y as int, r), accel_comp(
            mag,
            p.z as int,
            r,
        ))
    }
}

/// The acceleration the chosen law assigns at p around a body of the
/// given mass.
pub open spec fn accel_of(law: AccelLaw, p: Vec3, mass_kg: int) -> (int, int, int) {
    match law {
        AccelLaw::Newtonian => newton_accel_of(p, mass_kg),
        AccelLaw::PaczynskiWiita => pw_accel_of(p, mass_kg),
    }
}

/// Shared tail of both laws: a magnitude mag applied along -pos/r.
fn attract(p: Vec3, mag: i128, r: i128) -> (a: Vec3)
    requires
        1 <= r <= 77_000_000_000_000,
        0 <= mag <= ACC_CAP,
        -r <= p.x <= r,
        -r <= p.y <= r,
        -r <= p.z <= r,
    ensures
        a.x == accel_comp(mag as int, p.x as int, r as int),
        a.y == accel_comp(mag as int, p.y as int, r as int),
        a.z == accel_comp(mag as int, p.z as int, r as int),
        in_range(a, mag as int),
{
    proof {
        assert((r as int) * (mag as int) <= 170141183460469231731687303715884105727)
            by (nonlinear_arith)
            requires
                0 <= r <= 77_000_000_000_000,
                0 <= mag <= 10_000_000_000_000_000_000_000,
        ;
    }
    let qx = mul_div_scale(p.x, mag, r);
    let qy = mul_div_scale(p.y, mag, r);
    let qz = mul_div_scale(p.z, mag, r);
    proof {
        assert((p.x as int) * (mag as int) == (mag as int) * (p.x as int)) by (nonlinear_arith);
        assert((p.y as int) * (mag as int) == (mag as int) * (p.y as int)) by (nonlinear_arith);
        assert((p.z as int) * (mag as int) == (mag as int) * (p.z as int)) by (nonlinear_arith);
    }
    Vec3 { x: -qx, y: -qy, z: -qz }
}

/// The Newtonian attraction -G*mass/r^2 toward the body along
/// -pos/norm(pos); the zero vector at the origin (an undefined
/// direction is treated as no force, not as an error).
pub fn newtonian_accel(pos: Vec3, bh: &BlackHole) -> (a: Vec3)
    requires
        in_range(pos, POS_LIMIT as int),
        0 <= bh.mass_kg <= MASS_LIMIT,
    ensures
        a.x == newton_accel_of(pos, bh.mass_kg as int).0,
        a.y == newton_accel_of(pos, bh.mass_kg as int).1,
        a.z == newton_accel_of(pos, bh.mass_kg as int).2,
        in_range(a, ACC_CAP as int),
{
    let r = pos.norm();
    if r == 0 {
        proof {
            assert(norm2(pos) == 0) by (nonlinear_arith)
                requires
                    (r as int) * (r as int) <= norm2(pos),
                    norm2(pos) < ((r as int) + 1) * ((r as int) + 1),
                    r == 0,
            ;
        }
        Vec3 { x: 0, y: 0, z: 0 }
    } else {
        proof {
            assert(norm2(pos) != 0) by (nonlinear_arith)
                requires
                    (r as int) * (r as int) <= norm2(pos),
                    r >= 1,
            ;
            lemma_abs_mul_bound(pos.x as int, pos.x as int, 35_184_372_088_832, 35_184_372_088_832);
            lemma_abs_mul_bound(pos.y as int, pos.y as int, 35_184_372_088_832, 35_184_372_088_832);
            lemma_abs_mul_bound(pos.z as int, pos.z as int, 35_184_372_088_832, 35_184_372_088_832);
            assert(pos.x * pos.x >= 0) by (nonlinear_arith);
            assert(pos.y * pos.y >= 0) by (nonlinear_arith);
            assert(pos.z * pos.z >= 0) by (nonlinear_arith);
        }
        let n2 = pos.x * pos.x + pos.y * pos.y + pos.z * pos.z;
        let gm = 66_743 * bh.mass_kg;
        let den = n2 * 1_000_000_000;
        proof {
            vstd::arithmetic::div_mod::lemma_div_pos_is_pos(gm as int, den as int);
        }
        let mag0 = gm / den;
        let mag = if mag0 > ACC_CAP {
            ACC_CAP
        } else {
            mag0
        };
        attract(pos, mag, r)
    }
}

/// The Paczynski-Wiita attraction -G*mass/(r - r_s)^2 toward the body
/// along -pos/norm(pos); the zero vector at or inside the horizon,
/// the law's own saturation, distinct from the absorption predicate.
pub fn pw_accel(pos: Vec3, bh: &BlackHole) -> (a: Vec3)
    requires
        in_range(pos, POS_LIMIT as int),
        0 <= bh.mass_kg <= MASS_LIMIT,
    ensures
        a.x == pw_accel_of(pos, bh.mass_kg as int).0,
        a.y == pw_accel_of(pos, bh.mass_kg as int).1,
        a.z == pw_accel_of(pos, bh.mass_kg as int).2,
        in_range(a, ACC_CAP as int),
{
    let r = pos.norm();
    let rs = bh.r_s();
    if r <= rs {
        Vec3 { x: 0, y: 0, z: 0 }
    } else {
        let d = r - rs;
        proof {
            lemma_abs_mul_bound(d as int, d as int, 77_000_000_000_000, 77_000_000_000_000);
            assert(1 <= (d as int) * (d as int)) by (nonlinear_arith)
                requires
                    1 <= d,
            ;
        }
        let dd = d * d;
        let gm = 66_743 * bh.mass_kg;
        let den = dd * 1_000_000_000;
        proof {
            vstd::arithmetic::div_mod::lemma_div_pos_is_pos(gm as int, den as int);
        }
        let mag0 = gm / den;
        let mag = if mag0 > ACC_CAP {
            ACC_CAP
        } else {
            mag0
        };
        attract(pos, mag, r)
    }
}

impl AccelLaw {
    /// The acceleration this law assigns at pos around bh.
    pub fn accel_at(self, pos: Vec3, bh: &BlackHole) -> (a: Vec3)
        requires
            in_range(pos, POS_LIMIT as int),
            0 <= bh.mass_kg <= MASS_LIMIT,
        ensures
            a.x == accel_of(self, pos, bh.mass_kg as int).0,
            a.y == accel_of(self, pos, bh.mass_kg as int).1,
            a.z == accel_of(self, pos, bh.mass_kg as int).2,
            in_range(a, ACC_CAP as int),
    {
        match self {
            AccelLaw::Newtonian => newtonian_accel(pos, bh),
            AccelLaw::PaczynskiWiita => pw_accel(pos, bh),
        }
    }
}

/// The circular-orbit speed sqrt(G*mass/r) matching the Newtonian law,
/// in micrometres per microsecond (numerically metres per second).
pub fn newton_orbit_speed(bh: &BlackHole, radius: i128) -> (v: i128)
    requires
        0 <= bh.mass_kg <= MASS_LIMIT,
        1 <= radius <= POS_LIMIT,
    ensures
        v == isqrt_spec(gm_femto(bh.mass_kg as int) / ((radius as int) * 1_000_000_000)),
{
    let gm = 66_743 * bh.mass_kg;
    let den = radius * 1_000_000_000;
    proof {
        vstd::arithmetic::div_mod::lemma_div_pos_is_pos(gm as int, den as int);
        vstd::arithmetic::div_mod::lemma_div_is_ordered_by_denominator(
            gm as int,
            1_000_000_000,
            den as int,
        );
        vstd::arithmetic::div_mod::lemma_div_is_ordered(
            gm as int,
            13_348_600_000_000_000_000_000_000_000_000_000_000,
            1_000_000_000,
        );
    }
    let v2 = gm / den;
    isqrt(v2)
}

/// The squared circular-orbit speed matching the Paczynski-Wiita law,
/// G*mass*r/(r - r_s)^2, in fixed point: the mass term is first scaled
/// down by 1e18, the quotient is saturated far beyond any physical
/// speed, and the result is rescaled by 1e9.
pub open spec fn pw_speed_sq(mass_kg: int, radius: int) -> int {
    let d = radius - rs_of(mass_kg);
    min_i((gm_femto(mass_kg) / 1_000_000_000_000_000_000) * radius / (d * d),
        100_000_000_000_000_000_000_000_000) * 1_000_000_000
}

/// The circular-orbit speed sqrt(G*mass*r)/(r - r_s) matching the
/// Paczynski-Wiita law, in micrometres per microsecond; it diverges
/// toward the horizon, so callers must stay outside the horizon radius.
pub fn pw_orbital_speed(bh: &BlackHole, radius: i128) -> (v: i128)
    requires
        0 <= bh.mass_kg <= MASS_LIMIT,
        1 <= radius <= POS_LIMIT,
        radius > rs_of(bh.mass_kg as int),
    ensures
        v == isqrt_spec(pw_speed_sq(bh.mass_kg as int, radius as int)),
{
    let gm = 66_743 * bh.mass_kg;
    proof {
        vstd::arithmetic::div_mod::lemma_div_pos_is_pos(gm as int, 1_000_000_000_000_000_000);
        vstd::arithmetic::div_mod::lemma_div_is_ordered(
            gm as int,
            13_348_600_000_000_000_000_000_000_000_000_000_000,
            1_000_000_000_000_000_000,
        );
    }
    let g18 = gm / 1_000_000_000_000_000_000;
    let rs = bh.r_s();
    let d = radius - rs;
    proof {
        lemma_abs_mul_bound(g18 as int, radius as int, 13_348_600_000_000_000_000, 35_184_372_088_832);
        lemma_abs_mul_bound(d as int, d as int, 35_184_372_088_832, 35_184_372_088_832);
        assert(1 <= (d as int) * (d as int)) by (nonlinear_arith)
            requires
                1 <= d,
        ;
    }
    let num = g18 * radius;
    let dd = d * d;
    proof {
        vstd::arithmetic::div_mod::lemma_div_pos_is_pos(num as int, dd as int);
    }
    let w0 = num / dd;
    let w = if w0 > 100_000_000_000_000_000_000_000_000 {
        100_000_000_000_000_000_000_000_000
    } else {
        w0
    };
    isqrt(w * 1_000_000_000)
}

/// Whether the particle counts as absorbed: norm(pos) <= 1.01 * r_s,
/// a fixed 1% safety margin above the horizon, compared exactly as
/// 100 * norm <= 101 * r_s in integers. A diagnostic query only; the
/// integrator never consults it.
pub fn absorbed(pos: Vec3, bh: &BlackHole) -> (b: bool)
    requires
        in_range(pos, POS_LIMIT as int),
        0 <= bh.mass_kg <= MASS_LIMIT,
    ensures
        b == (100 * norm_of(pos) <= 101 * rs_of(bh.mass_kg as int)),
{
    let n = pos.norm();
    let rs = bh.r_s();
    100 * n <= 101 * rs
}

/// The exact squared circular-orbit speed of the Paczynski-Wiita law is
/// proportional to gm * r / (r - rs)^2, and it strictly increases as the
/// radius comes down toward the horizon: cross-multiplied against the
/// denominators, for rs < r1 < r2 the value at r1 exceeds the value at r2.
#[verifier::rlimit(50)]
pub proof fn lemma_pw_speed_increases_toward_horizon(gm: int, rs: int, r1: int, r2: int)
    requires
        gm >= 1,
        rs >= 1,
        rs < r1 < r2,
    ensures
        gm * r1 * ((r2 - rs) * (r2 - rs)) > gm * r2 * ((r1 - rs) * (r1 - rs)),
{
    assert(r1 * ((r2 - rs) * (r2 - rs)) - r2 * ((r1 - rs) * (r1 - rs)) == (r2 - r1) * (r1 * r2
        - rs * rs)) by (nonlinear_arith);
    assert((r2 - r1) * (r1 * r2 - rs * rs) >= 1) by (nonlinear_arith)
        requires
            rs >= 1,
            rs < r1 < r2,
    ;
    assert(gm * r1 * ((r2 - rs) * (r2 - rs)) > gm * r2 * ((r1 - rs) * (r1 - rs)))
        by (nonlinear_arith)
        requires
            gm >= 1,
            r1 * ((r2 - rs) * (r2 - rs)) - r2 * ((r1 - rs) * (r1 - rs)) >= 1,
    ;
}

/// The strict growth of the exact Paczynski-Wiita speed toward the
/// horizon survives fixed-point flooring, saturation and the square
/// root in non-strict form: the quantized circular-orbit speed that
/// pw_orbital_speed returns never increases with the radius.
pub proof fn lemma_pw_speed_quantized_antitone(mass_kg: int, r1: int, r2: int)
    requires
        0 <= mass_kg,
        rs_of(mass_kg) < r1 < r2,
    ensures
        isqrt_spec(pw_speed_sq(mass_kg, r2)) <= isqrt_spec(pw_speed_sq(mass_kg, r1)),
{
    let rs = rs_of(mass_kg);
    vstd::arithmetic::div_mod::lemma_div_pos_is_pos(
        133_486 * mass_kg,
        89_875_517_873_681_764_000_000_000,
    );
    let g18 = gm_femto(mass_kg) / 1_000_000_000_000_000_000;
    vstd::arithmetic::div_mod::lemma_div_pos_is_pos(
        gm_femto(mass_kg),
        1_000_000_000_000_000_000,
    );
    let d1 = r1 - rs;
    let d2 = r2 - rs;
    let x1 = g18 * r1;
    let x2 = g18 * r2;
    assert(0 <= x1 && 0 <= x2 && 1 <= d1 * d1 && 1 <= d2 * d2) by (nonlinear_arith)
        requires
            x1 == g18 * r1,
            x2 == g18 * r2,
            d1 == r1 - rs,
            d2 == r2 - rs,
            0 <= g18,
            0 <= rs,
            rs < r1 < r2,
    ;
    assert(x2 * (d1 * d1) <= x1 * (d2 * d2)) by (nonlinear_arith)
        requires
            x1 == g18 * r1,
            x2 == g18 * r2,
            d1 == r1 - rs,
            d2 == r2 - rs,
            0 <= g18,
            0 <= rs,
            rs < r1 < r2,
    ;
    crate::math::lemma_div_cross_ordered(x2, d2 * d2, x1, d1 * d1);
    vstd::arithmetic::div_mod::lemma_div_pos_is_pos(x2, d2 * d2);
    assert(pw_speed_sq(mass_kg, r2) <= pw_speed_sq(mass_kg, r1));
    assert(0 <= pw_speed_sq(mass_kg, r2));
    crate::math::lemma_isqrt_monotone(pw_speed_sq(mass_kg, r2), pw_speed_sq(mass_kg, r1));
}

/// The squared Paczynski-Wiita speed at the rational radius p/q lies
/// above the bound: the inequality gm*(p/q)/((p/q)-rs)^2 > bound,
/// cross-multiplied by q and the squared denominator.
pub open spec fn pw_speed_exceeds(gm: int, rs: int, bound: int, p: int, q: int) -> bool {
    q >= 1 && q * rs < p && gm * p * q > bound * ((p - q * rs) * (p - q * rs))
}

/// Close enough above the horizon, the Paczynski-Wiita circular-orbit
/// speed grows without bound: for every bound there is a rational
/// radius p/q just above rs whose squared speed exceeds it.
pub proof fn lemma_pw_speed_unbounded_near_horizon(gm: int, rs: int, bound: int)
    requires
        gm >= 1,
        rs >= 1,
        bound >= 0,
    ensures
        exists|p: int, q: int| pw_speed_exceeds(gm, rs, bound, p, q),
{
    let q = bound + 1;
    let p = q * rs + 1;
    assert(gm * p * q > bound * ((p - q * rs) * (p - q * rs))) by (nonlinear_arith)
        requires
            gm >= 1,
            rs >= 1,
            bound >= 0,
            q == bound + 1,
            p == q * rs + 1,
    ;
    assert(pw_speed_exceeds(gm, rs, bound, p, q));
}

} // verus!
