use vstd::prelude::*;

verus! {

/// Identifies a player (or a lobby) across the network.
#[derive(Clone, Copy, Debug, Hash, PartialEq, Eq, Structural)]
pub struct Id(pub u32);

/// A point or a velocity in world space.
///
/// Each component is the IEEE-754 bit pattern of an `f32` (what `f32::to_bits`
/// gives). The library only moves these values from one place to another.
#[derive(Clone, Copy, Debug, Default, PartialEq, Eq, Structural)]
pub struct Vec3 {
    pub x: u32,
    pub y: u32,
    pub z: u32,
}

impl Vec3 {
    pub fn new(x: u32, y: u32, z: u32) -> (r: Self)
        ensures
            r == (Vec3 { x, y, z }),
    {
        Self { x, y, z }
    }
}

} // verus!
