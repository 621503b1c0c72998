use crate::units::{rs_of, schwarzschild_radius, MASS_LIMIT, M_SUN_MICRO};
use vstd::prelude::*;

verus! {

/// A gravitating compact body, reduced to its one scalar: the mass in
/// kilograms, immutable after construction.
#[derive(Clone, Copy, Debug)]
pub struct BlackHole {
    pub mass_kg: i128,
}

impl BlackHole {
    /// Builds a body whose mass is given in millionths of a solar mass,
    /// so 1_000_000 stands for one solar mass.
    pub fn from_solar_mass(micro_suns: i128) -> (b: BlackHole)
        requires
            0 <= micro_suns <= 100_000_000,
        ensures
            b.mass_kg == micro_suns * M_SUN_MICRO,
            0 <= b.mass_kg <= MASS_LIMIT,
    {
        proof {
            assert((micro_suns as int) * (M_SUN_MICRO as int) == (micro_suns as int)
                * 1_988_920_000_000_000_000_000_000) by (nonlinear_arith)
                requires
                    M_SUN_MICRO == 1_988_920_000_000_000_000_000_000,
            ;
        }
        BlackHole { mass_kg: micro_suns * 1_988_920_000_000_000_000_000_000 }
    }

    /// The body's Schwarzschild radius, in micrometres.
    pub fn r_s(&self) -> (r: i128)
        requires
            0 <= self.mass_kg <= MASS_LIMIT,
        ensures
            r == rs_of(self.mass_kg as int),
            0 <= r <= 300_000_000_000,
    {
        schwarzschild_radius(self.mass_kg)
    }
}

} // verus!
