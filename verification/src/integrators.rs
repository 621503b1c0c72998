use crate::body::BlackHole;
use crate::laws::{accel_of, AccelLaw};
use crate::math::{lemma_abs_mul_bound, tdiv};
use crate::units::{DT_LIMIT, MASS_LIMIT, POS_LIMIT, VEL_LIMIT};
use crate::vec3::{in_range, Vec3};
use vstd::prelude::*;

verus! {

/// The particle's state: a position and a velocity in the same Cartesian
/// frame as the body, advanced in place by the integrator and owned
/// exclusively by the caller.
#[derive(Clone, Copy, Debug, PartialEq, Eq, Structural)]
pub struct State {
    pub pos: Vec3,
    pub vel: Vec3,
}

impl State {
    pub fn new(pos: Vec3, vel: Vec3) -> (s: State)
        ensures
            s.pos == pos,
            s.vel == vel,
    {
        State { pos, vel }
    }
}

/// One position component after the drift half of a velocity-Verlet
/// step: x + v*dt + a*dt^2/2, in fixed-point integers.
pub open spec fn drift(x: int, v: int, a: int, dt: int) -> int {
    x + v * dt + tdiv(a * dt * dt, 2)
}

/// One velocity component after the averaged kick: v + (a0 + a1)*dt/2.
pub open spec fn kick(v: int, a0: int, a1: int, dt: int) -> int {
    v + tdiv((a0 + a1) * dt, 2)
}

/// The position components after one velocity-Verlet step of s.
pub open spec fn step_pos(law: AccelLaw, s: State, dt: int, mass_kg: int) -> (int, int, int) {
    let a0 = accel_of(law, s.pos, mass_kg);
    (
        drift(s.pos.x as int, s.vel.x as int, a0.0, dt),
        drift(s.pos.y as int, s.vel.y as int, a0.1, dt),
        drift(s.pos.z as int, s.vel.z as int, a0.2, dt),
    )
}

/// The stepped position as a vector; meaningful when the components
/// stay in the working range.
pub open spec fn step_pos_vec(law: AccelLaw, s: State, dt: int, mass_kg: int) -> Vec3 {
    let p = step_pos(law, s, dt, mass_kg);
    Vec3 { x: p.0 as i128, y: p.1 as i128, z: p.2 as i128 }
}

/// The velocity components after one velocity-Verlet step of s: the
/// average of the accelerations at the old and the stepped position.
pub open spec fn step_vel(law: AccelLaw, s: State, dt: int, mass_kg: int) -> (int, int, int) {
    let a0 = accel_of(law, s.pos, mass_kg);
    let a1 = accel_of(law, step_pos_vec(law, s, dt, mass_kg), mass_kg);
    (
        kick(s.vel.x as int, a0.0, a1.0, dt),
        kick(s.vel.y as int, a0.1, a1.1, dt),
        kick(s.vel.z as int, a0.2, a1.2, dt),
    )
}

/// The stepped velocity as a vector; meaningful when the components
/// stay in the working range.
pub open spec fn step_vel_vec(law: AccelLaw, s: State, dt: int, mass_kg: int) -> Vec3 {
    let v = step_vel(law, s, dt, mass_kg);
    Vec3 { x: v.0 as i128, y: v.1 as i128, z: v.2 as i128 }
}

/// The fixed-point ranges one velocity-Verlet step needs: inputs within
/// the working ranges, and the stepped position and velocity again
/// within them, so that nothing overflows or leaves the laws' domain.
pub open spec fn step_fits(law: AccelLaw, s: State, dt: int, mass_kg: int) -> bool {
    &&& in_range(s.pos, POS_LIMIT as int)
    &&& in_range(s.vel, VEL_LIMIT as int)
    &&& -DT_LIMIT <= dt <= DT_LIMIT
    &&& 0 <= mass_kg <= MASS_LIMIT
    &&& ({
        let p = step_pos(law, s, dt, mass_kg);
        -POS_LIMIT <= p.0 <= POS_LIMIT && -POS_LIMIT <= p.1 <= POS_LIMIT && -POS_LIMIT <= p.2
            <= POS_LIMIT
    })
    &&& ({
        let v = step_vel(law, s, dt, mass_kg);
        -VEL_LIMIT <= v.0 <= VEL_LIMIT && -VEL_LIMIT <= v.1 <= VEL_LIMIT && -VEL_LIMIT <= v.2
            <= VEL_LIMIT
    })
}

/// One velocity-Verlet step, per unit mass:
///   a0 = accel(x), x' = x + v*dt + a0*dt^2/2,
///   a1 = accel(x'), v' = v + (a0 + a1)*dt/2;
/// the caller's state is advanced in place. Deterministic in
/// (state, dt, body, law); dt may be negative, integrating backward.
pub fn step_velocity_verlet(state: &mut State, dt: i128, bh: &BlackHole, accel: AccelLaw)
    requires
        step_fits(accel, *old(state), dt as int, bh.mass_kg as int),
    ensures
        final(state).pos == step_pos_vec(accel, *old(state), dt as int, bh.mass_kg as int),
        final(state).vel == step_vel_vec(accel, *old(state), dt as int, bh.mass_kg as int),
        in_range(final(state).pos, POS_LIMIT as int),
        in_range(final(state).vel, VEL_LIMIT as int),
{
    let a0 = accel.accel_at(state.pos, bh);
    proof {
        lemma_abs_mul_bound(state.vel.x as int, dt as int, 35_184_372_088_832, 33_554_432);
        lemma_abs_mul_bound(state.vel.y as int, dt as int, 35_184_372_088_832, 33_554_432);
        lemma_abs_mul_bound(state.vel.z as int, dt as int, 35_184_372_088_832, 33_554_432);
        lemma_abs_mul_bound(a0.x as int, dt as int, 10_000_000_000_000_000_000_000, 33_554_432);
        lemma_abs_mul_bound(a0.y as int, dt as int, 10_000_000_000_000_000_000_000, 33_554_432);
        lemma_abs_mul_bound(a0.z as int, dt as int, 10_000_000_000_000_000_000_000, 33_554_432);
        lemma_abs_mul_bound(
            (a0.x * dt) as int,
            dt as int,
            335_544_320_000_000_000_000_000_000_000,
            33_554_432,
        );
        lemma_abs_mul_bound(
            (a0.y * dt) as int,
            dt as int,
            335_544_320_000_000_000_000_000_000_000,
            33_554_432,
        );
        lemma_abs_mul_bound(
            (a0.z * dt) as int,
            dt as int,
            335_544_320_000_000_000_000_000_000_000,
            33_554_432,
        );
    }
    let px = state.pos.x + state.vel.x * dt + (a0.x * dt) * dt / 2;
    let py = state.pos.y + state.vel.y * dt + (a0.y * dt) * dt / 2;
    let pz = state.pos.z + state.vel.z * dt + (a0.z * dt) * dt / 2;
    let pos1 = Vec3 { x: px, y: py, z: pz };
    proof {
        assert(pos1 == step_pos_vec(accel, *old(state), dt as int, bh.mass_kg as int));
    }
    let a1 = accel.accel_at(pos1, bh);
    proof {
        lemma_abs_mul_bound(
            (a0.x + a1.x) as int,
            dt as int,
            20_000_000_000_000_000_000_000,
            33_554_432,
        );
        lemma_abs_mul_bound(
            (a0.y + a1.y) as int,
            dt as int,
            20_000_000_000_000_000_000_000,
            33_554_432,
        );
        lemma_abs_mul_bound(
            (a0.z + a1.z) as int,
            dt as int,
            20_000_000_000_000_000_000_000,
            33_554_432,
        );
    }
    let vx = state.vel.x + (a0.x + a1.x) * dt / 2;
    let vy = state.vel.y + (a0.y + a1.y) * dt / 2;
    let vz = state.vel.z + (a0.z + a1.z) * dt / 2;
    state.pos = pos1;
    state.vel = Vec3 { x: vx, y: vy, z: vz };
}

/// An executable form of the step's precondition: whether one
/// velocity-Verlet step of s with this dt, body and law stays within
/// the fixed-point working ranges. A caller that cannot evaluate
/// step_fits itself can test this and only then call the integrator.
pub fn step_in_range(s: &State, dt: i128, bh: &BlackHole, law: AccelLaw) -> (b: bool)
    ensures
        b == step_fits(law, *s, dt as int, bh.mass_kg as int),
{
    if !(-POS_LIMIT <= s.pos.x && s.pos.x <= POS_LIMIT && -POS_LIMIT <= s.pos.y && s.pos.y
        <= POS_LIMIT && -POS_LIMIT <= s.pos.z && s.pos.z <= POS_LIMIT) {
        return false;
    }
    if !(-VEL_LIMIT <= s.vel.x && s.vel.x <= VEL_LIMIT && -VEL_LIMIT <= s.vel.y && s.vel.y
        <= VEL_LIMIT && -VEL_LIMIT <= s.vel.z && s.vel.z <= VEL_LIMIT) {
        return false;
    }
    if !(-DT_LIMIT <= dt && dt <= DT_LIMIT) {
        return false;
    }
    if !(0 <= bh.mass_kg && bh.mass_kg <= MASS_LIMIT) {
        return false;
    }
    let a0 = law.accel_at(s.pos, bh);
    proof {
        lemma_abs_mul_bound(s.vel.x as int, dt as int, 35_184_372_088_832, 33_554_432);
        lemma_abs_mul_bound(s.vel.y as int, dt as int, 35_184_372_088_832, 33_554_432);
        lemma_abs_mul_bound(s.vel.z as int, dt as int, 35_184_372_088_832, 33_554_432);
        lemma_abs_mul_bound(a0.x as int, dt as int, 10_000_000_000_000_000_000_000, 33_554_432);
        lemma_abs_mul_bound(a0.y as int, dt as int, 10_000_000_000_000_000_000_000, 33_554_432);
        lemma_abs_mul_bound(a0.z as int, dt as int, 10_000_000_000_000_000_000_000, 33_554_432);
        lemma_abs_mul_bound(
            (a0.x * dt) as int,
            dt as int,
            335_544_320_000_000_000_000_000_000_000,
            33_554_432,
        );
        lemma_abs_mul_bound(
            (a0.y * dt) as int,
            dt as int,
            335_544_320_000_000_000_000_000_000_000,
            33_554_432,
        );
        lemma_abs_mul_bound(
            (a0.z * dt) as int,
            dt as int,
            335_544_320_000_000_000_000_000_000_000,
            33_554_432,
        );
    }
    let px = s.pos.x + s.vel.x * dt + (a0.x * dt) * dt / 2;
    let py = s.pos.y + s.vel.y * dt + (a0.y * dt) * dt / 2;
    let pz = s.pos.z + s.vel.z * dt + (a0.z * dt) * dt / 2;
    if !(-POS_LIMIT <= px && px <= POS_LIMIT && -POS_LIMIT <= py && py <= POS_LIMIT && -POS_LIMIT
        <= pz && pz <= POS_LIMIT) {
        return false;
    }
    let pos1 = Vec3 { x: px, y: py, z: pz };
    proof {
        assert(pos1 == step_pos_vec(law, *s, dt as int, bh.mass_kg as int));
    }
    let a1 = law.accel_at(pos1, bh);
    proof {
        lemma_abs_mul_bound(
            (a0.x + a1.x) as int,
            dt as int,
            20_000_000_000_000_000_000_000,
            33_554_432,
        );
        lemma_abs_mul_bound(
            (a0.y + a1.y) as int,
            dt as int,
            20_000_000_000_000_000_000_000,
            33_554_432,
        );
        lemma_abs_mul_bound(
            (a0.z + a1.z) as int,
            dt as int,
            20_000_000_000_000_000_000_000,
            33_554_432,
        );
    }
    let vx = s.vel.x + (a0.x + a1.x) * dt / 2;
    let vy = s.vel.y + (a0.y + a1.y) * dt / 2;
    let vz = s.vel.z + (a0.z + a1.z) * dt / 2;
    -VEL_LIMIT <= vx && vx <= VEL_LIMIT && -VEL_LIMIT <= vy && vy <= VEL_LIMIT && -VEL_LIMIT <= vz
        && vz <= VEL_LIMIT
}

/// A velocity-Verlet step with dt = 0 is exactly the identity: the
/// stepped position and velocity equal the old ones, and the step's
/// range side conditions hold of themselves.
pub proof fn lemma_step_zero_dt_is_identity(law: AccelLaw, s: State, mass_kg: int)
    requires
        in_range(s.pos, POS_LIMIT as int),
        in_range(s.vel, VEL_LIMIT as int),
        0 <= mass_kg <= MASS_LIMIT,
    ensures
        step_fits(law, s, 0, mass_kg),
        step_pos_vec(law, s, 0, mass_kg) == s.pos,
        step_vel_vec(law, s, 0, mass_kg) == s.vel,
{
    let a0 = accel_of(law, s.pos, mass_kg);
    assert(s.vel.x * 0 == 0);
    assert(s.vel.y * 0 == 0);
    assert(s.vel.z * 0 == 0);
    assert(a0.0 * 0 * 0 == 0);
    assert(a0.1 * 0 * 0 == 0);
    assert(a0.2 * 0 * 0 == 0);
    assert(tdiv(0, 2) == 0);
    assert(step_pos_vec(law, s, 0, mass_kg) == s.pos);
    let a1 = accel_of(law, step_pos_vec(law, s, 0, mass_kg), mass_kg);
    assert((a0.0 + a1.0) * 0 == 0);
    assert((a0.1 + a1.1) * 0 == 0);
    assert((a0.2 + a1.2) * 0 == 0);
    assert(step_vel_vec(law, s, 0, mass_kg) == s.vel);
}

} // verus!
