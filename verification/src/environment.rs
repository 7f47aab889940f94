//! The surroundings of the vessel: elapsed time and the wind.

use crate::fixed::{saturate, saturate_i128};
use crate::vec2::Vec2;
use vstd::prelude::*;

verus! {

/// Strength of the wind at the start of a simulation: 10 units. It blows
/// along the x axis.
pub const INITIAL_WIND_SPEED: i64 = 10 * 65536;

/// The state of the surroundings. `time` counts the seconds since the
/// simulation began; `wind` is the wind that blows, the same everywhere.
pub struct Environment {
    pub time: i64,
    pub wind: Vec2,
}

impl Environment {
    /// The wind at `pos`: one and the same vector at every position.
    pub open spec fn wind_at(&self, pos: Vec2) -> Vec2 {
        self.wind
    }

    /// The surroundings at time zero, with a wind of 10 units along the x
    /// axis.
    pub fn new() -> (env: Self)
        ensures
            env.time == 0,
            env.wind == (Vec2 { x: INITIAL_WIND_SPEED, y: 0 }),
    {
        Self { time: 0, wind: Vec2::new(INITIAL_WIND_SPEED, 0) }
    }

    /// Lets `dt` seconds pass. The wind stays as it is.
    pub fn update(&mut self, dt: i64)
        ensures
            final(self).time == saturate(old(self).time + dt),
            final(self).wind == old(self).wind,
    {
        self.time = saturate_i128(self.time as i128 + dt as i128);
    }

    /// The wind at `pos`.
    pub fn get_wind_at(&self, pos: Vec2) -> (wind: Vec2)
        ensures
            wind == self.wind_at(pos),
    {
        self.wind
    }
}

} // verus!
