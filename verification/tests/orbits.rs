use grav_core::integrators::{step_in_range, step_velocity_verlet, State};
use grav_core::units::{schwarzschild_radius, M_SUN_MICRO};
use grav_core::{
    absorbed, newton_orbit_speed, newtonian_accel, pw_accel, pw_orbital_speed, AccelLaw,
    BlackHole, Vec3,
};

#[test]
fn schwarzschild_of_sun_about_2953m() {
    let rs = schwarzschild_radius(M_SUN_MICRO * 1_000_000);
    // 2953.339382 m, in micrometres, within 1 m.
    assert!((rs - 2_953_339_382).abs() < 1_000_000);
}

#[test]
fn from_solar_mass_scales_the_mass() {
    let bh = BlackHole::from_solar_mass(10_000_000);
    assert_eq!(bh.mass_kg, 19_889_200_000_000_000_000_000_000_000_000);
    assert_eq!(bh.r_s(), 29_540_077_364);
    let sun = BlackHole::from_solar_mass(1_000_000);
    assert_eq!(sun.mass_kg, M_SUN_MICRO * 1_000_000);
    assert_eq!(sun.r_s(), 2_954_007_736);
}

#[test]
fn newtonian_accel_points_inward() {
    let bh = BlackHole::from_solar_mass(1_000_000);
    let a = newtonian_accel(Vec3::new(3_000_000_000, 4_000_000_000, 0), &bh);
    assert_eq!((a.x, a.y, a.z), (-3_185_915, -4_247_887, 0));
    let b = newtonian_accel(Vec3::new(-3_000_000_000, -4_000_000_000, 0), &bh);
    assert_eq!((b.x, b.y, b.z), (3_185_915, 4_247_887, 0));
}

#[test]
fn newtonian_accel_zero_at_origin() {
    let bh = BlackHole::from_solar_mass(1_000_000);
    let a = newtonian_accel(Vec3::new(0, 0, 0), &bh);
    assert_eq!((a.x, a.y, a.z), (0, 0, 0));
}

#[test]
fn pw_accel_zero_at_and_inside_horizon() {
    let bh = BlackHole::from_solar_mass(1_000_000);
    let rs = bh.r_s();
    let inside = pw_accel(Vec3::new(rs / 2, 0, 0), &bh);
    assert_eq!((inside.x, inside.y, inside.z), (0, 0, 0));
    let on = pw_accel(Vec3::new(rs, 0, 0), &bh);
    assert_eq!((on.x, on.y, on.z), (0, 0, 0));
    let origin = pw_accel(Vec3::new(0, 0, 0), &bh);
    assert_eq!((origin.x, origin.y, origin.z), (0, 0, 0));
}

#[test]
fn pw_accel_stronger_than_newtonian_outside() {
    let bh = BlackHole::from_solar_mass(1_000_000);
    let pos = Vec3::new(2 * bh.r_s(), 0, 0);
    let pw = pw_accel(pos, &bh);
    let nw = newtonian_accel(pos, &bh);
    // At r = 2 r_s the shifted denominator quarters, so the pull quadruples.
    assert_eq!(pw.x, -15_212_471);
    assert_eq!(nw.x, -3_803_117);
    assert!(pw.x < nw.x && nw.x < 0);
}

#[test]
fn pw_orbital_speed_increases_toward_horizon() {
    let bh = BlackHole::from_solar_mass(10_000_000);
    let rs = bh.r_s();
    let far = pw_orbital_speed(&bh, 20 * rs);
    let mid = pw_orbital_speed(&bh, 2 * rs);
    let near = pw_orbital_speed(&bh, rs + 10_000_000);
    let nearer = pw_orbital_speed(&bh, rs + 100_000);
    let nearest = pw_orbital_speed(&bh, rs + 1_000);
    assert!(far < mid && mid < near && near < nearer && nearer < nearest);
    // At r = 2 r_s the Paczynski-Wiita circular speed reaches the speed
    // of light, and it keeps growing without bound below that.
    assert_eq!(mid, 299_792_456);
    assert!(nearest > 1_000_000_000_000);
}

#[test]
fn absorbed_boundary_at_one_percent_margin() {
    let bh = BlackHole::from_solar_mass(1_000_000);
    let rs = bh.r_s();
    // Largest integer norm not above 1.01 * r_s.
    let edge = 101 * rs / 100;
    assert!(absorbed(Vec3::new(edge, 0, 0), &bh));
    assert!(!absorbed(Vec3::new(edge + 1, 0, 0), &bh));
    assert!(absorbed(Vec3::new(rs, 0, 0), &bh));
    assert!(absorbed(Vec3::new(0, 0, 0), &bh));
    assert!(!absorbed(Vec3::new(10 * rs, 0, 0), &bh));
}

#[test]
fn step_in_range_matches_working_ranges() {
    let bh = BlackHole::from_solar_mass(10_000_000);
    let r0 = 20 * bh.r_s();
    let v0 = newton_orbit_speed(&bh, r0);
    let state = State::new(Vec3::new(r0, 0, 0), Vec3::new(0, v0, 0));
    assert!(step_in_range(&state, 124, &bh, AccelLaw::Newtonian));
    // A time step beyond the working limit of 2^25 microseconds.
    assert!(!step_in_range(&state, 100_000_000, &bh, AccelLaw::Newtonian));
    // A position beyond the working limit of 2^45 micrometres.
    let far = State::new(Vec3::new(40_000_000_000_000, 0, 0), Vec3::new(0, 0, 0));
    assert!(!step_in_range(&far, 124, &bh, AccelLaw::Newtonian));
}

#[test]
fn verlet_zero_dt_leaves_state_unchanged() {
    let bh = BlackHole::from_solar_mass(10_000_000);
    let pos = Vec3::new(20 * bh.r_s(), 123, -55);
    let vel = Vec3::new(7, 47_401_349, -9);
    let mut state = State::new(pos, vel);
    step_velocity_verlet(&mut state, 0, &bh, AccelLaw::Newtonian);
    assert_eq!(state, State::new(pos, vel));
    step_velocity_verlet(&mut state, 0, &bh, AccelLaw::PaczynskiWiita);
    assert_eq!(state, State::new(pos, vel));
}

#[test]
fn ten_solar_mass_circular_orbit_stays_circular() {
    // Ten solar masses, r0 = 20 r_s, circular Newtonian start,
    // dt = 0.01 r0 / v: after 100 steps the orbit radius and the speed
    // hold to within one percent.
    let bh = BlackHole::from_solar_mass(10_000_000);
    let r0 = 20 * bh.r_s();
    let v0 = newton_orbit_speed(&bh, r0);
    assert_eq!(v0, 47_401_349);
    let dt = r0 / (100 * v0);
    assert_eq!(dt, 124);
    let mut state = State::new(Vec3::new(r0, 0, 0), Vec3::new(0, v0, 0));
    let mut i: usize = 0;
    while i < 100 {
        step_velocity_verlet(&mut state, dt, &bh, AccelLaw::Newtonian);
        assert!((state.pos.norm() - r0).abs() <= r0 / 100);
        assert!((state.vel.norm() - v0).abs() <= v0 / 100);
        i += 1;
    }
}

#[test]
fn sun_circular_orbit_stays_circular() {
    // The Newtonian circular orbit of one solar mass at 10 r_s holds its
    // radius over 400 small steps.
    let bh = BlackHole::from_solar_mass(1_000_000);
    let r0 = 10 * bh.r_s();
    let v0 = newton_orbit_speed(&bh, r0);
    let dt = r0 / (200 * v0);
    assert!(dt >= 1);
    let mut state = State::new(Vec3::new(r0, 0, 0), Vec3::new(0, v0, 0));
    let mut i: usize = 0;
    while i < 400 {
        step_velocity_verlet(&mut state, dt, &bh, AccelLaw::Newtonian);
        assert!((state.pos.norm() - r0).abs() <= r0 / 500);
        i += 1;
    }
}

#[test]
fn pw_circular_orbit_stays_circular() {
    // A circular orbit under the Paczynski-Wiita law at 8 r_s, started
    // with the law's own analytic speed.
    let bh = BlackHole::from_solar_mass(10_000_000);
    let r0 = 8 * bh.r_s();
    let v0 = pw_orbital_speed(&bh, r0);
    let dt = r0 / (200 * v0);
    let mut state = State::new(Vec3::new(r0, 0, 0), Vec3::new(0, v0, 0));
    let mut i: usize = 0;
    while i < 100 {
        step_velocity_verlet(&mut state, dt, &bh, AccelLaw::PaczynskiWiita);
        assert!((state.pos.norm() - r0).abs() <= r0 / 500);
        i += 1;
    }
}

#[test]
fn backward_step_retraces_forward_step_roughly() {
    // dt may be negative: one step forward and one step back return to
    // the start up to fixed-point rounding.
    let bh = BlackHole::from_solar_mass(10_000_000);
    let r0 = 20 * bh.r_s();
    let v0 = newton_orbit_speed(&bh, r0);
    let start = State::new(Vec3::new(r0, 0, 0), Vec3::new(0, v0, 0));
    let mut state = start;
    step_velocity_verlet(&mut state, 124, &bh, AccelLaw::Newtonian);
    step_velocity_verlet(&mut state, -124, &bh, AccelLaw::Newtonian);
    assert!((state.pos.x - start.pos.x).abs() <= 1_000);
    assert!((state.pos.y - start.pos.y).abs() <= 1_000);
    assert!((state.vel.x - start.vel.x).abs() <= 1_000);
    assert!((state.vel.y - start.vel.y).abs() <= 1_000);
}
