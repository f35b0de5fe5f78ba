//! Where the eye is.

use vstd::prelude::*;
use crate::formats::Angle;

verus! {

/// World units are 16.16 fixed point and a terrain cell is 8.0 of them, so a
/// position is an `i32` triple in the same units the `.NAV` and `.DEF` files
/// use.
#[derive(Debug, Clone, Copy, Default)]
pub struct Camera {
    pub x: i32,
    pub y: i32,
    pub z: i32,
    /// Heading: 0 looks along +z and the heading increases toward +x, so
    /// 0x4000 looks along +x.
    pub yaw: Angle,
    /// Positive pitch tilts the view downward.
    pub pitch: Angle,
    /// Positive roll lowers the left wing.
    pub roll: Angle,
}

impl Camera {
    /// An eye at a point, turned to a heading, level.
    pub fn looking_at(x: i32, y: i32, z: i32, yaw: Angle) -> (r: Camera)
        ensures
            r.x == x && r.y == y && r.z == z && r.yaw == yaw && r.pitch.0 == 0 && r.roll.0 == 0,
    {
        Camera { x, y, z, yaw, pitch: Angle(0), roll: Angle(0) }
    }
}

} // verus!
