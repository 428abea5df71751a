//! Rotation of loc dimensions and approach flags by a loc angle.
use vstd::prelude::*;

verus! {

/// `a` for the even angles (west, east), `b` for the odd ones (north, south).
pub open spec fn rotated(angle: u8, a: u8, b: u8) -> u8 {
    if angle % 2 == 0 { a } else { b }
}

/// The four approach bits turned clockwise by `angle` quarter turns.
pub open spec fn rotated_flags(angle: u8, flags: u8) -> u8 {
    (((flags << angle) & 0xf) | (flags >> ((4 - angle) as u8))) as u8
}

pub fn rotate(angle: u8, a: u8, b: u8) -> (r: u8)
    ensures
        r == rotated(angle, a, b),
{
    if angle % 2 == 0 {
        a
    } else {
        b
    }
}

pub fn rotate_flags(angle: u8, block_access_flags: u8) -> (r: u8)
    requires
        angle <= 4,
    ensures
        r == rotated_flags(angle, block_access_flags),
{
    ((block_access_flags << angle) & 0xf) | (block_access_flags >> (4 - angle))
}


/// Rotating the four approach bits keeps them four bits, a quarter turn
/// `angle` times and then the rest of the way round gives them back, and no
/// turn at all changes nothing.
pub proof fn lemma_rotate_flags_turns(angle: u8, flags: u8)
    requires
        angle <= 4,
        flags < 16,
    ensures
        rotated_flags(angle, flags) < 16,
        rotated_flags((4 - angle) as u8, rotated_flags(angle, flags)) == flags,
        rotated_flags(0, flags) == flags,
        rotated_flags(4, flags) == flags,
{
    assert(angle <= 4 && flags < 16 ==> ((((flags << angle) & 0xf) | (flags >> ((4 - angle) as u8))) as u8) < 16) by (bit_vector);
    let r = rotated_flags(angle, flags);
    assert(r == ((((flags << angle) & 0xf) | (flags >> ((4 - angle) as u8))) as u8));
    assert(angle <= 4 && flags < 16 && r == ((((flags << angle) & 0xf) | (flags >> ((4 - angle) as u8))) as u8) ==> ((((r << ((4 - angle) as u8)) & 0xf) | (r >> ((4 - ((4 - angle) as u8)) as u8))) as u8) == flags) by (bit_vector);
    assert(flags < 16 ==> ((((flags << 0u8) & 0xf) | (flags >> 4u8)) as u8) == flags && ((((flags
        << 4u8) & 0xf) | (flags >> 0u8)) as u8) == flags) by (bit_vector);
}

/// Dimensions swap on the odd (north and south) angles and stay on the even
/// ones, so a half turn changes nothing.
pub proof fn lemma_rotate_half_turn(angle: u8, a: u8, b: u8)
    requires
        angle <= 1,
    ensures
        rotated(angle, a, b) == rotated((angle + 2) as u8, a, b),
        rotated(angle, a, b) == if angle == 0 { a } else { b },
        rotated(angle, b, a) == if angle == 0 { b } else { a },
{
}

} // verus!
