use crate::math::min_i;
use vstd::prelude::*;

verus! {

/// Gravitational constant in units of 1e-15 m^3 kg^-1 s^-2 (6.67430e-11 exactly).
pub const G_FEMTO: i128 = 66_743;

/// Speed of light, in m/s.
pub const C: i128 = 299_792_458;

/// One millionth of a solar mass, in kilograms (the solar mass being 1.98892e30 kg).
pub const M_SUN_MICRO: i128 = 1_988_920_000_000_000_000_000_000;

/// Largest position component the kernel works on, in micrometres (2^45).
pub const POS_LIMIT: i128 = 35_184_372_088_832;

/// Largest velocity component, in micrometres per microsecond (2^45).
pub const VEL_LIMIT: i128 = 35_184_372_088_832;

/// Largest magnitude of a time step, in microseconds (2^25).
pub const DT_LIMIT: i128 = 33_554_432;

/// Largest body mass, in kilograms (about one hundred solar masses).
pub const MASS_LIMIT: i128 = 200_000_000_000_000_000_000_000_000_000_000;

/// Saturation value of an acceleration magnitude, in micrometres per
/// microsecond squared; it is reached only within about a millimetre
/// of a singular radius, far inside the absorption margin.
pub const ACC_CAP: i128 = 10_000_000_000_000_000_000_000;

/// Fixed-point scale of a direction: a unit vector has this norm.
pub const ONE_MICRO: i128 = 1_000_000;

/// G times the mass, in units of 1e-15 m^3 s^-2 (the factor is G_FEMTO).
pub open spec fn gm_femto(mass_kg: int) -> int {
    66_743 * mass_kg
}

/// The Schwarzschild radius 2*G*mass/c^2 in micrometres, rounded down:
/// the numerator carries 2 * G_FEMTO = 133486, the denominator is
/// c^2 scaled by 1e9 to land in micrometres.
pub open spec fn rs_of(mass_kg: int) -> int {
    (133_486 * mass_kg) / 89_875_517_873_681_764_000_000_000
}

/// Magnitude of an inverse-square attraction gm / d2, in micrometres per
/// microsecond squared, saturated at ACC_CAP; d2 is a squared distance in
/// square micrometres.
pub open spec fn accel_mag(gm: int, d2: int) -> int
    recommends
        d2 > 0,
{
    min_i(gm / (d2 * 1_000_000_000), 10_000_000_000_000_000_000_000)
}

/// The Schwarzschild radius r_s = 2*G*mass/c^2, in micrometres.
pub fn schwarzschild_radius(mass_kg: i128) -> (r: i128)
    requires
        0 <= mass_kg <= MASS_LIMIT,
    ensures
        r == rs_of(mass_kg as int),
        0 <= r <= 300_000_000_000,
{
    let num = 133_486 * mass_kg;
    proof {
        vstd::arithmetic::div_mod::lemma_div_pos_is_pos(
            num as int,
            89_875_517_873_681_764_000_000_000,
        );
        vstd::arithmetic::div_mod::lemma_div_is_ordered(
            num as int,
            26_697_200_000_000_000_000_000_000_000_000_000_000,
            89_875_517_873_681_764_000_000_000,
        );
    }
    num / 89_875_517_873_681_764_000_000_000
}

} // verus!
