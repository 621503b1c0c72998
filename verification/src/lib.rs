//! A small verified kernel for comparative orbital-dynamics experiments:
//! a 3D vector primitive, a gravitating-body model with its Schwarzschild
//! radius, two interchangeable acceleration laws (Newtonian and
//! Paczynski-Wiita), and a velocity-Verlet integrator.
//!
//! All quantities are fixed-point integers in micro-based SI units:
//! positions in micrometres, velocities in micrometres per microsecond
//! (numerically metres per second), accelerations in micrometres per
//! microsecond squared, masses in kilograms, time steps in microseconds.
//! Every operation has an exact integer contract.

pub mod body;
pub mod integrators;
pub mod laws;
pub mod math;
pub mod units;
pub mod vec3;

pub use body::BlackHole;
pub use laws::absorbed;
pub use laws::newton_orbit_speed;
pub use laws::newtonian_accel;
pub use laws::pw_accel;
pub use laws::pw_orbital_speed;
pub use laws::AccelLaw;
pub use vec3::Vec3;
