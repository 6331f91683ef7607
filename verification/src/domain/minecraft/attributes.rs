//! Health, food, experience and air.
use vstd::prelude::*;
use crate::domain::nbt::value::Numeric;

verus! {

/// A player's vital numbers. The floating-point ones are kept as the number
/// they are read from (`Numeric`); the `f32` shown is that number converted
/// with Rust's `as`.
#[derive(Debug, Clone, Copy, PartialEq, Eq, Structural)]
pub struct PlayerAttributes {
    pub health: Numeric,
    pub food_level: i32,
    pub food_saturation: Numeric,
    pub xp_level: i32,
    pub xp_progress: Numeric,
    pub xp_total: i32,
    pub air: i32,
}

/// `20.0f32`.
pub const F32_TWENTY: u32 = 0x41A0_0000;
/// `5.0f32`.
pub const F32_FIVE: u32 = 0x40A0_0000;

impl Default for PlayerAttributes {
    /// Full health and food, no experience, full air.
    fn default() -> (r: PlayerAttributes)
        ensures
            r == (PlayerAttributes {
                health: Numeric::Float(F32_TWENTY),
                food_level: 20,
                food_saturation: Numeric::Float(F32_FIVE),
                xp_level: 0,
                xp_progress: Numeric::Float(0),
                xp_total: 0,
                air: 300,
            }),
    {
        PlayerAttributes {
            health: Numeric::Float(F32_TWENTY),
            food_level: 20,
            food_saturation: Numeric::Float(F32_FIVE),
            xp_level: 0,
            xp_progress: Numeric::Float(0),
            xp_total: 0,
            air: 300,
        }
    }
}

} // verus!
