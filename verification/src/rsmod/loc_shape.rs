//! The shapes a loc can take.
use vstd::prelude::*;

verus! {

pub const WALL_STRAIGHT: i8 = 0;
pub const WALL_DIAGONAL_CORNER: i8 = 1;
pub const WALL_L: i8 = 2;
pub const WALL_SQUARE_CORNER: i8 = 3;
pub const WALL_DECOR_STRAIGHT_NO_OFFSET: i8 = 4;
pub const WALL_DECOR_STRAIGHT_OFFSET: i8 = 5;
pub const WALL_DECOR_DIAGONAL_OFFSET: i8 = 6;
pub const WALL_DECOR_DIAGONAL_NO_OFFSET: i8 = 7;
pub const WALL_DECOR_DIAGONAL_BOTH: i8 = 8;
pub const WALL_DIAGONAL: i8 = 9;
pub const CENTREPIECE_STRAIGHT: i8 = 10;
pub const CENTREPIECE_DIAGONAL: i8 = 11;
pub const GROUND_DECOR: i8 = 22;

#[derive(Clone, Copy, PartialEq, Eq, Structural, Debug)]
pub enum LocShape {
    WallStraight,
    WallDiagonalCorner,
    WallL,
    WallSquareCorner,
    WallDecorStraightNoOffset,
    WallDecorStraightOffset,
    WallDecorDiagonalOffset,
    WallDecorDiagonalNoOffset,
    WallDecorDiagonalBoth,
    WallDiagonal,
    CentrepieceStraight,
    CentrepieceDiagonal,
    RoofStraight,
    RoofDiagonalWithRoofEdge,
    RoofDiagonal,
    RoofLConcave,
    RoofLConvex,
    RoofFlat,
    RoofEdgeStraight,
    RoofEdgeDiagonalCorner,
    RoofEdgeL,
    RoofEdgeSquareCorner,
    GroundDecor,
}

pub open spec fn shape_of(value: i8) -> LocShape {
    if value == 0 {
        LocShape::WallStraight
    } else if value == 1 {
        LocShape::WallDiagonalCorner
    } else if value == 2 {
        LocShape::WallL
    } else if value == 3 {
        LocShape::WallSquareCorner
    } else if value == 4 {
        LocShape::WallDecorStraightNoOffset
    } else if value == 5 {
        LocShape::WallDecorStraightOffset
    } else if value == 6 {
        LocShape::WallDecorDiagonalOffset
    } else if value == 7 {
        LocShape::WallDecorDiagonalNoOffset
    } else if value == 8 {
        LocShape::WallDecorDiagonalBoth
    } else if value == 9 {
        LocShape::WallDiagonal
    } else if value == 10 {
        LocShape::CentrepieceStraight
    } else if value == 11 {
        LocShape::CentrepieceDiagonal
    } else if value == 12 {
        LocShape::RoofStraight
    } else if value == 13 {
        LocShape::RoofDiagonalWithRoofEdge
    } else if value == 14 {
        LocShape::RoofDiagonal
    } else if value == 15 {
        LocShape::RoofLConcave
    } else if value == 16 {
        LocShape::RoofLConvex
    } else if value == 17 {
        LocShape::RoofFlat
    } else if value == 18 {
        LocShape::RoofEdgeStraight
    } else if value == 19 {
        LocShape::RoofEdgeDiagonalCorner
    } else if value == 20 {
        LocShape::RoofEdgeL
    } else if value == 21 {
        LocShape::RoofEdgeSquareCorner
    } else {
        LocShape::GroundDecor
    }
}

impl LocShape {
    /// The shape named by `value`; only 0 to 22 name a shape.
    pub fn from(value: i8) -> (r: LocShape)
        requires
            0 <= value <= 22,
        ensures
            r == shape_of(value),
    {
        match value {
            0 => LocShape::WallStraight,
            1 => LocShape::WallDiagonalCorner,
            2 => LocShape::WallL,
            3 => LocShape::WallSquareCorner,
            4 => LocShape::WallDecorStraightNoOffset,
            5 => LocShape::WallDecorStraightOffset,
            6 => LocShape::WallDecorDiagonalOffset,
            7 => LocShape::WallDecorDiagonalNoOffset,
            8 => LocShape::WallDecorDiagonalBoth,
            9 => LocShape::WallDiagonal,
            10 => LocShape::CentrepieceStraight,
            11 => LocShape::CentrepieceDiagonal,
            12 => LocShape::RoofStraight,
            13 => LocShape::RoofDiagonalWithRoofEdge,
            14 => LocShape::RoofDiagonal,
            15 => LocShape::RoofLConcave,
            16 => LocShape::RoofLConvex,
            17 => LocShape::RoofFlat,
            18 => LocShape::RoofEdgeStraight,
            19 => LocShape::RoofEdgeDiagonalCorner,
            20 => LocShape::RoofEdgeL,
            21 => LocShape::RoofEdgeSquareCorner,
            _ => LocShape::GroundDecor,
        }
    }
}

} // verus!
