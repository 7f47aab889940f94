//! The vessel and the response of its controls to the helm.

use crate::environment::Environment;
use crate::fixed::{clamp, clamp_to, fx_mul, fx_mul_spec, saturate, saturate_i128, ONE};
use crate::vec2::Vec2;
use vstd::prelude::*;

verus! {

/// Half a turn, in radians.
pub const PI: i64 = 205887;

/// A full turn, in radians.
pub const TWO_PI: i64 = 411774;

/// The rudder's largest deflection to either side: 45 degrees, in radians.
pub const MAX_RUDDER_ANGLE: i64 = 51472;

/// How fast the rudder follows the helm: the share of the remaining way to
/// its target that it covers per second.
pub const RUDDER_RESPONSE_SPEED: i64 = 2 * 65536;

/// The sail's smallest aperture: 0.05 radians.
pub const MIN_SAIL_APERTURE: i64 = 3277;

/// The sail's largest aperture: a quarter turn.
pub const MAX_SAIL_APERTURE: i64 = 102944;

/// The aperture that a new vessel's sail is set to: 0.1 radians.
pub const INITIAL_SAIL_APERTURE: i64 = 6554;

/// What the helm asks for during one frame.
#[derive(Clone, Copy, Debug, PartialEq, Eq, Structural)]
pub struct Controls {
    pub steer_left: bool,
    pub steer_right: bool,
    pub trim_in: bool,
    pub trim_out: bool,
}

/// The vessel. Positions and velocities are in world units, angles in
/// radians, all in fixed point.
pub struct Boat {
    pub pos: Vec2,
    pub vel: Vec2,
    pub heading: i64,
    pub rudder_angle: i64,
    pub sail_aperture: i64,
    pub sail_angle: i64,
}

/// The deflection that the helm steers the rudder toward.
pub open spec fn rudder_target(controls: Controls) -> int {
    if controls.steer_left {
        MAX_RUDDER_ANGLE as int
    } else if controls.steer_right {
        -MAX_RUDDER_ANGLE
    } else {
        0
    }
}

/// Where the rudder's response carries it in `dt` seconds: it covers the
/// share `RUDDER_RESPONSE_SPEED * dt` of what separates it from the target.
pub open spec fn rudder_response(rudder: int, target: int, dt: int) -> int {
    saturate(
        rudder + fx_mul_spec(
            fx_mul_spec(saturate(target - rudder), RUDDER_RESPONSE_SPEED as int),
            dt,
        ),
    )
}

/// The rudder's deflection after `dt` seconds on the way to `target`: where
/// its response carries it, but never beyond its largest deflection to
/// either side.
pub open spec fn rudder_after(rudder: int, target: int, dt: int) -> int {
    clamp(rudder_response(rudder, target, dt), -MAX_RUDDER_ANGLE, MAX_RUDDER_ANGLE as int)
}

/// An aperture that the sail can take: `a` kept between the smallest and the
/// largest.
pub open spec fn limit_aperture(a: int) -> int {
    clamp(a, MIN_SAIL_APERTURE as int, MAX_SAIL_APERTURE as int)
}

/// The sail's aperture after `dt` seconds of trimming: it closes at one
/// radian per second while it is trimmed in and opens at that rate while it
/// is trimmed out, and stays between the smallest and the largest aperture
/// in both.
pub open spec fn aperture_after(aperture: int, controls: Controls, dt: int) -> int {
    let closed = if controls.trim_in {
        limit_aperture(saturate(aperture - dt))
    } else {
        aperture
    };
    if controls.trim_out {
        limit_aperture(saturate(closed + dt))
    } else {
        closed
    }
}

/// The angle in the range from `-PI` to `PI` that differs from `angle` by
/// whole turns: `angle` itself if it lies in that range, else the first
/// angle inside the range that is reached from it by full turns.
pub open spec fn normalize_angle_spec(angle: int) -> int {
    if angle > PI {
        angle - ((angle - PI + TWO_PI - 1) / (TWO_PI as int)) * TWO_PI
    } else if angle < -PI {
        angle + ((-PI - angle + TWO_PI - 1) / (TWO_PI as int)) * TWO_PI
    } else {
        angle
    }
}

/// The rudder never leaves the range of its largest deflection, whatever
/// its deflection was, however long the frame and whatever the helm asks
/// for.
pub proof fn lemma_rudder_bounded(rudder: int, controls: Controls, dt: int)
    ensures
        -MAX_RUDDER_ANGLE <= rudder_after(rudder, rudder_target(controls), dt) <= MAX_RUDDER_ANGLE,
{
}

/// Within a frame of at most half a second a rudder within its largest
/// deflection moves by exactly its response, toward its target and not past
/// it.
pub proof fn lemma_rudder_short_frame(rudder: int, controls: Controls, dt: int)
    requires
        -MAX_RUDDER_ANGLE <= rudder <= MAX_RUDDER_ANGLE,
        0 <= 2 * dt <= ONE,
    ensures
        rudder_after(rudder, rudder_target(controls), dt) == rudder_response(
            rudder,
            rudder_target(controls),
            dt,
        ),
        rudder <= rudder_target(controls) ==> rudder <= rudder_after(
            rudder,
            rudder_target(controls),
            dt,
        ) <= rudder_target(controls),
        rudder >= rudder_target(controls) ==> rudder >= rudder_after(
            rudder,
            rudder_target(controls),
            dt,
        ) >= rudder_target(controls),
{
    let target = rudder_target(controls);
    let gap = target - rudder;
    let one = ONE as int;
    let size = if gap >= 0 { gap } else { -gap };
    vstd::arithmetic::div_mod::lemma_div_multiples_vanish(2 * size, one);
    let twice = fx_mul_spec(gap, RUDDER_RESPONSE_SPEED as int);
    assert(twice == 2 * gap) by {
        if gap >= 0 {
            assert(gap * RUDDER_RESPONSE_SPEED == (2 * size) * one) by (nonlinear_arith)
                requires
                    RUDDER_RESPONSE_SPEED == 2 * one,
                    size == gap,
            ;
        } else {
            assert(-(gap * RUDDER_RESPONSE_SPEED) == (2 * size) * one) by (nonlinear_arith)
                requires
                    RUDDER_RESPONSE_SPEED == 2 * one,
                    size == -gap,
            ;
        }
    }
    let amount = (2 * size) * dt;
    assert(0 <= amount <= size * one) by (nonlinear_arith)
        requires
            amount == (2 * size) * dt,
            size >= 0,
            0 <= 2 * dt <= one,
    ;
    vstd::arithmetic::div_mod::lemma_div_pos_is_pos(amount, one);
    vstd::arithmetic::div_mod::lemma_div_is_ordered(amount, size * one, one);
    vstd::arithmetic::div_mod::lemma_div_multiples_vanish(size, one);
    assert((2 * gap) * dt == (if gap >= 0 { amount } else { -amount })) by (nonlinear_arith)
        requires
            amount == (2 * size) * dt,
            size == (if gap >= 0 { gap } else { -gap }),
    ;
}

/// Trimming keeps the sail's aperture between its smallest and its largest
/// value, however long the frame and whatever the helm asks for.
pub proof fn lemma_aperture_bounded(aperture: int, controls: Controls, dt: int)
    requires
        MIN_SAIL_APERTURE <= aperture <= MAX_SAIL_APERTURE,
    ensures
        MIN_SAIL_APERTURE <= aperture_after(aperture, controls, dt) <= MAX_SAIL_APERTURE,
{
}

impl Boat {
    /// A vessel at rest at `(x, y)`, heading along the x axis, rudder
    /// amidships, sail nearly closed.
    pub fn new(x: i64, y: i64) -> (boat: Self)
        ensures
            boat.pos == (Vec2 { x, y }),
            boat.vel == (Vec2 { x: 0, y: 0 }),
            boat.heading == 0,
            boat.rudder_angle == 0,
            boat.sail_aperture == INITIAL_SAIL_APERTURE,
            boat.sail_angle == 0,
    {
        Self {
            pos: Vec2::new(x, y),
            vel: Vec2::new(0, 0),
            heading: 0,
            rudder_angle: 0,
            sail_aperture: INITIAL_SAIL_APERTURE,
            sail_angle: 0,
        }
    }

    /// Moves rudder and sail as the helm asks, for a frame of `dt` seconds.
    /// The rudder ends within its largest deflection, and a sail whose
    /// aperture was between the smallest and the largest keeps it there.
    pub fn handle_input(&mut self, controls: Controls, dt: i64)
        ensures
            final(self).rudder_angle == rudder_after(
                old(self).rudder_angle as int,
                rudder_target(controls),
                dt as int,
            ),
            -MAX_RUDDER_ANGLE <= final(self).rudder_angle <= MAX_RUDDER_ANGLE,
            final(self).sail_aperture == aperture_after(
                old(self).sail_aperture as int,
                controls,
                dt as int,
            ),
            MIN_SAIL_APERTURE <= old(self).sail_aperture <= MAX_SAIL_APERTURE
                ==> MIN_SAIL_APERTURE <= final(self).sail_aperture <= MAX_SAIL_APERTURE,
            final(self).pos == old(self).pos,
            final(self).vel == old(self).vel,
            final(self).heading == old(self).heading,
            final(self).sail_angle == old(self).sail_angle,
    {
        let target_rudder: i64 = if controls.steer_left {
            MAX_RUDDER_ANGLE
        } else if controls.steer_right {
            -MAX_RUDDER_ANGLE
        } else {
            0
        };
        let gap = saturate_i128(target_rudder as i128 - self.rudder_angle as i128);
        let step = fx_mul(fx_mul(gap, RUDDER_RESPONSE_SPEED), dt);
        let response = saturate_i128(self.rudder_angle as i128 + step as i128);
        self.rudder_angle = clamp_to(response, -MAX_RUDDER_ANGLE, MAX_RUDDER_ANGLE);

        if controls.trim_in {
            let a = saturate_i128(self.sail_aperture as i128 - dt as i128);
            self.sail_aperture = clamp_to(a, MIN_SAIL_APERTURE, MAX_SAIL_APERTURE);
        }
        if controls.trim_out {
            let a = saturate_i128(self.sail_aperture as i128 + dt as i128);
            self.sail_aperture = clamp_to(a, MIN_SAIL_APERTURE, MAX_SAIL_APERTURE);
        }
    }

    /// Advances the vessel by `dt` seconds under the physical model
    /// `model`.
    pub fn update_with<P: PhysicsModel>(&mut self, model: &P, dt: i64, env: &Environment)
        ensures
            *final(self) == model.advanced(*old(self), dt, *env),
    {
        model.advance(self, dt, env);
    }

    /// Advances the vessel by `dt` seconds. The vessel is inert: it stays as
    /// it is.
    pub fn update(&mut self, dt: i64, env: &Environment)
        ensures
            *final(self) == *old(self),
    {
        self.update_with(&Inert, dt, env);
    }
}

/// How the vessel moves: from its state, the time that passes and its
/// surroundings to its state afterwards.
pub trait PhysicsModel {
    /// The vessel `dt` seconds later.
    spec fn advanced(&self, boat: Boat, dt: i64, env: Environment) -> Boat;

    /// Advances the vessel by `dt` seconds.
    fn advance(&self, boat: &mut Boat, dt: i64, env: &Environment)
        ensures
            *final(boat) == self.advanced(*old(boat), dt, *env),
    ;
}

/// The physical model of a vessel that nothing moves.
pub struct Inert;

impl PhysicsModel for Inert {
    open spec fn advanced(&self, boat: Boat, dt: i64, env: Environment) -> Boat {
        boat
    }

    fn advance(&self, boat: &mut Boat, dt: i64, env: &Environment) {
    }
}

/// Brings an angle into the range from `-PI` to `PI` by whole turns.
pub fn normalize_angle(angle: i64) -> (a: i64)
    ensures
        a == normalize_angle_spec(angle as int),
        -PI <= a <= PI,
        (a - angle) % (TWO_PI as int) == 0,
        angle > PI ==> a > -PI,
        angle < -PI ==> a < PI,
{
    let two_pi: i128 = TWO_PI as i128;
    if angle > PI {
        let over: i128 = angle as i128 - PI as i128;
        let turns: i128 = (over + two_pi - 1) / two_pi;
        proof {
            lemma_whole_turns(over as int, turns as int);
        }
        let r: i128 = angle as i128 - turns * two_pi;
        r as i64
    } else if angle < -PI {
        let under: i128 = -(PI as i128) - angle as i128;
        let turns: i128 = (under + two_pi - 1) / two_pi;
        proof {
            lemma_whole_turns(under as int, turns as int);
        }
        let r: i128 = angle as i128 + turns * two_pi;
        r as i64
    } else {
        proof {
            assert(0int % (TWO_PI as int) == 0);
        }
        angle
    }
}

/// The number of whole turns that brings an excess of `over` back into
/// range leaves less than one turn.
proof fn lemma_whole_turns(over: int, turns: int)
    requires
        over > 0,
        turns == (over + TWO_PI - 1) / (TWO_PI as int),
    ensures
        over <= turns * TWO_PI < over + TWO_PI,
        turns >= 1,
        (turns * TWO_PI) % (TWO_PI as int) == 0,
        (-(turns * TWO_PI)) % (TWO_PI as int) == 0,
{
    let t = TWO_PI as int;
    vstd::arithmetic::div_mod::lemma_fundamental_div_mod(over + t - 1, t);
    vstd::arithmetic::div_mod::lemma_mod_bound(over + t - 1, t);
    assert(t * turns == turns * t) by (nonlinear_arith);
    vstd::arithmetic::div_mod::lemma_mod_multiples_basic(turns, t);
    vstd::arithmetic::div_mod::lemma_mod_multiples_basic(-turns, t);
    assert((-turns) * t == -(turns * t)) by (nonlinear_arith);
}

} // verus!
