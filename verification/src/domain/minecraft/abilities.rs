//! What a player may do.
use vstd::prelude::*;
use crate::domain::nbt::value::Numeric;

verus! {

/// The ability flags and speeds (speeds as the number they are read from).
#[derive(Debug, Clone, Copy, PartialEq, Eq, Structural)]
pub struct PlayerAbilities {
    pub flying: bool,
    pub may_fly: bool,
    pub instabuild: bool,
    pub invulnerable: bool,
    pub may_build: bool,
    pub walk_speed: Numeric,
    pub fly_speed: Numeric,
}

/// `0.1f32`.
pub const F32_WALK_SPEED: u32 = 0x3DCC_CCCD;
/// `0.05f32`.
pub const F32_FLY_SPEED: u32 = 0x3D4C_CCCD;

impl Default for PlayerAbilities {
    fn default() -> (r: PlayerAbilities)
        ensures
            r == (PlayerAbilities {
                flying: false,
                may_fly: false,
                instabuild: false,
                invulnerable: false,
                may_build: true,
                walk_speed: Numeric::Float(F32_WALK_SPEED),
                fly_speed: Numeric::Float(F32_FLY_SPEED),
            }),
    {
        PlayerAbilities {
            flying: false,
            may_fly: false,
            instabuild: false,
            invulnerable: false,
            may_build: true,
            walk_speed: Numeric::Float(F32_WALK_SPEED),
            fly_speed: Numeric::Float(F32_FLY_SPEED),
        }
    }
}

} // verus!
