//! Where a player is and which way it faces.
use vstd::prelude::*;
use crate::domain::nbt::value::Numeric;

verus! {

/// Coordinates (`f64` in the game), rotation (`f32`) and dimension. The
/// numbers are kept as the number they are read from.
#[derive(Debug, PartialEq)]
pub struct PlayerPosition {
    pub x: Numeric,
    pub y: Numeric,
    pub z: Numeric,
    pub yaw: Numeric,
    pub pitch: Numeric,
    pub dimension: String,
}

pub struct PositionModel {
    pub x: Numeric,
    pub y: Numeric,
    pub z: Numeric,
    pub yaw: Numeric,
    pub pitch: Numeric,
    pub dimension: Seq<char>,
}

impl View for PlayerPosition {
    type V = PositionModel;

    open spec fn view(&self) -> PositionModel {
        PositionModel {
            x: self.x,
            y: self.y,
            z: self.z,
            yaw: self.yaw,
            pitch: self.pitch,
            dimension: self.dimension@,
        }
    }
}

/// `64.0f64`.
pub const F64_SIXTY_FOUR: u64 = 0x4050_0000_0000_0000;

/// The origin at height 64 in the overworld, facing south.
pub open spec fn default_position() -> PositionModel {
    PositionModel {
        x: Numeric::Double(0),
        y: Numeric::Double(F64_SIXTY_FOUR),
        z: Numeric::Double(0),
        yaw: Numeric::Float(0),
        pitch: Numeric::Float(0),
        dimension: "minecraft:overworld"@,
    }
}

impl Default for PlayerPosition {
    fn default() -> (r: PlayerPosition)
        ensures
            r@ == default_position(),
    {
        PlayerPosition {
            x: Numeric::Double(0),
            y: Numeric::Double(F64_SIXTY_FOUR),
            z: Numeric::Double(0),
            yaw: Numeric::Float(0),
            pitch: Numeric::Float(0),
            dimension: "minecraft:overworld".to_owned(),
        }
    }
}

} // verus!
