//! One byte of flags per 8x8-tile zone of the world.
use crate::rsmod::collision::collision::{zone_index_of, CollisionFlagMap, TOTAL_ZONE_COUNT};
use vstd::prelude::*;

verus! {

pub struct ZoneFlagMap {
    flags: Vec<u8>,
}

impl View for ZoneFlagMap {
    type V = Seq<u8>;

    closed spec fn view(&self) -> Seq<u8> {
        self.flags@
    }
}

/// The byte after setting (`add`) or clearing the bits of `mask`.
pub open spec fn changed(old_flags: u8, mask: u8, add: bool) -> u8 {
    if add {
        old_flags | mask
    } else {
        old_flags & !mask
    }
}

impl ZoneFlagMap {
    /// One byte for each zone.
    pub open spec fn wf(&self) -> bool {
        self@.len() == TOTAL_ZONE_COUNT
    }

    /// The flags of the zone holding tile `(x, z)` of level `y`.
    pub open spec fn zone_flags(&self, x: int, z: int, y: int) -> u8 {
        self@[zone_index_of(x as i32, z as i32, y as i32) as int]
    }

    /// Every zone of every level starts with no flags.
    pub fn new() -> (r: ZoneFlagMap)
        ensures
            r.wf(),
            r@.len() == TOTAL_ZONE_COUNT,
            forall|i: int| 0 <= i < TOTAL_ZONE_COUNT ==> #[trigger] r@[i] == 0,
    {
        let flags: Vec<u8> = vec![0u8; TOTAL_ZONE_COUNT];
        proof {
            assert forall|i: int| 0 <= i < TOTAL_ZONE_COUNT implies #[trigger] flags@[i] == 0 by {
                assert(vstd::pervasive::cloned(0u8, flags@[i]));
            }
        }
        ZoneFlagMap { flags }
    }

    /// Sets (`add`) or clears the bits of `mask` for the zone of tile `(x, z)`
    /// of level `y`; no other zone changes.
    pub fn change_zone(&mut self, x: i32, z: i32, y: i32, mask: u8, add: bool)
        requires
            old(self).wf(),
        ensures
            final(self).wf(),
            final(self)@ == old(self)@.update(
                zone_index_of(x, z, y) as int,
                changed(old(self)@[zone_index_of(x, z, y) as int], mask, add),
            ),
    {
        let zone: usize = CollisionFlagMap::zone_index(x, z, y);
        let value: u8 = if add {
            self.flags[zone] | mask
        } else {
            self.flags[zone] & !mask
        };
        self.flags.set(zone, value);
    }

    /// Whether the zone of tile `(x, z)` of level `y` has a bit of `mask`.
    pub fn is_flagged(&self, x: i32, z: i32, y: i32, mask: u8) -> (r: bool)
        requires
            self.wf(),
        ensures
            r == (self.zone_flags(x as int, z as int, y as int) & mask != 0),
    {
        let zone: usize = CollisionFlagMap::zone_index(x, z, y);
        self.flags[zone] & mask != 0
    }

    /// Whether a zone next to tile `(x, z)` along an axis, one tile away
    /// (clamped at 0 below), has a bit of `mask`.
    pub fn borders(&self, x: i32, z: i32, y: i32, mask: u8) -> (r: bool)
        requires
            self.wf(),
            i32::MIN < x < i32::MAX,
            i32::MIN < z < i32::MAX,
        ensures
            r == (self.zone_flags(if x - 1 > 0 { x - 1 } else { 0 }, z as int, y as int) & mask
                != 0 || self.zone_flags(x + 1, z as int, y as int) & mask != 0
                || self.zone_flags(x as int, if z - 1 > 0 { z - 1 } else { 0 }, y as int) & mask
                != 0 || self.zone_flags(x as int, z + 1, y as int) & mask != 0),
    {
        let west: i32 = if x - 1 > 0 {
            x - 1
        } else {
            0
        };
        let south: i32 = if z - 1 > 0 {
            z - 1
        } else {
            0
        };
        self.is_flagged(west, z, y, mask) || self.is_flagged(x + 1, z, y, mask)
            || self.is_flagged(x, south, y, mask) || self.is_flagged(x, z + 1, y, mask)
    }
}


/// Changing one mask of a zone: adding sets all its bits, removing clears
/// them, bits outside it are untouched, and removing what was added gives the
/// byte back when none of its bits were set.
pub proof fn lemma_zone_change(flags: u8, mask: u8, other: u8)
    ensures
        changed(flags, mask, true) & mask == mask,
        changed(flags, mask, false) & mask == 0,
        mask & other == 0 ==> changed(flags, mask, true) & other == flags & other,
        mask & other == 0 ==> changed(flags, mask, false) & other == flags & other,
        flags & mask == 0 ==> changed(changed(flags, mask, true), mask, false) == flags,
{
    assert((flags | mask) & mask == mask && (flags & !mask) & mask == 0 && (mask & other == 0 ==> (
    flags | mask) & other == flags & other && (flags & !mask) & other == flags & other) && (flags
        & mask == 0 ==> (flags | mask) & !mask == flags)) by (bit_vector);
}

} // verus!
