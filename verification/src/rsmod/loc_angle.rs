//! The four rotations of a loc.
use vstd::prelude::*;

verus! {

#[derive(Clone, Copy, PartialEq, Eq, Structural, Debug)]
pub enum LocAngle {
    West,
    North,
    East,
    South,
}

pub open spec fn angle_of(value: u8) -> LocAngle {
    if value == 0 {
        LocAngle::West
    } else if value == 1 {
        LocAngle::North
    } else if value == 2 {
        LocAngle::East
    } else {
        LocAngle::South
    }
}

impl LocAngle {
    /// The angle named by `value`; only 0 to 3 name an angle.
    pub fn from(value: u8) -> (r: LocAngle)
        requires
            value <= 3,
        ensures
            r == angle_of(value),
    {
        match value {
            0 => LocAngle::West,
            1 => LocAngle::North,
            2 => LocAngle::East,
            _ => LocAngle::South,
        }
    }
}

} // verus!
