//! Points and mesh fragments in fixed-point map coordinates.
use vstd::prelude::*;
use crate::text::SCALE;

verus! {

/// A point or direction; each component is in thousandths of a map unit.
#[derive(Clone, Copy, Debug, PartialEq, Eq, Structural)]
pub struct Vec3 {
    pub x: i64,
    pub y: i64,
    pub z: i64,
}

impl View for Vec3 {
    type V = (int, int, int);

    open spec fn view(&self) -> (int, int, int) {
        (self.x as int, self.y as int, self.z as int)
    }
}

impl Vec3 {
    pub fn new(x: i64, y: i64, z: i64) -> (r: Vec3)
        ensures
            r.x == x && r.y == y && r.z == z,
    {
        Vec3 { x, y, z }
    }

    pub fn zero() -> (r: Vec3)
        ensures
            r == zero_vector(),
    {
        Vec3 { x: 0, y: 0, z: 0 }
    }

    /// The unit vector pointing straight up.
    pub fn up() -> (r: Vec3)
        ensures
            r == up_vector(),
    {
        Vec3 { x: 0, y: SCALE, z: 0 }
    }
}

pub open spec fn zero_vector() -> Vec3 {
    Vec3 { x: 0, y: 0, z: 0 }
}

pub open spec fn up_vector() -> Vec3 {
    Vec3 { x: 0, y: SCALE, z: 0 }
}

} // verus!
