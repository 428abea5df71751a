//! A world coordinate packed into 32 bits: level in bits 28-29, x in bits
//! 14-27 and z in bits 0-13.
use vstd::prelude::*;

verus! {

/// The packed form of `(y, x, z)`: each component masked to its field width.
pub open spec fn packed(y: i32, x: i32, z: i32) -> u32 {
    ((z & 0x3fff) | ((x & 0x3fff) << 14) | ((y & 0x3) << 28)) as u32
}

pub open spec fn level_of(packed: u32) -> u32 {
    (packed >> 28) & 0x3
}

pub open spec fn x_of(packed: u32) -> u32 {
    (packed >> 14) & 0x3fff
}

pub open spec fn z_of(packed: u32) -> u32 {
    packed & 0x3fff
}

/// A coordinate far enough from the ends of `i32` that stepping over entities
/// and search areas of any size cannot overflow.
pub open spec fn within_world(v: int) -> bool {
    -0x10000000 <= v <= 0x10000000
}

pub struct CoordGrid(pub u32);

impl CoordGrid {
    pub fn new(y: i32, x: i32, z: i32) -> (r: CoordGrid)
        ensures
            r.0 == packed(y, x, z),
            level_of(r.0) == (y & 0x3) as u32,
            x_of(r.0) == (x & 0x3fff) as u32,
            z_of(r.0) == (z & 0x3fff) as u32,
    {
        proof {
            lemma_unpack_packed(y, x, z);
        }
        CoordGrid(((z & 0x3fff) | ((x & 0x3fff) << 14) | ((y & 0x3) << 28)) as u32)
    }

    pub fn from(packed: u32) -> (r: CoordGrid)
        ensures
            r.0 == packed,
    {
        CoordGrid(packed)
    }

    pub fn y(&self) -> (r: u32)
        ensures
            r == level_of(self.0),
            r < 4,
    {
        let p = self.0;
        assert((p >> 28) & 0x3 < 4) by (bit_vector);
        (self.0 >> 28) & 0x3
    }

    pub fn x(&self) -> (r: u32)
        ensures
            r == x_of(self.0),
            r < 0x4000,
    {
        let p = self.0;
        assert((p >> 14) & 0x3fff < 0x4000) by (bit_vector);
        (self.0 >> 14) & 0x3fff
    }

    pub fn z(&self) -> (r: u32)
        ensures
            r == z_of(self.0),
            r < 0x4000,
    {
        let p = self.0;
        assert(p & 0x3fff < 0x4000) by (bit_vector);
        self.0 & 0x3fff
    }
}

/// Unpacking a packed coordinate gives back each component masked to its
/// field width.
pub proof fn lemma_unpack_packed(y: i32, x: i32, z: i32)
    ensures
        level_of(packed(y, x, z)) == (y & 0x3) as u32,
        x_of(packed(y, x, z)) == (x & 0x3fff) as u32,
        z_of(packed(y, x, z)) == (z & 0x3fff) as u32,
        packed(y, x, z) < 0x40000000,
{
    assert(((((z & 0x3fff) | ((x & 0x3fff) << 14) | ((y & 0x3) << 28)) as u32) >> 28) & 0x3 == (
    y & 0x3) as u32) by (bit_vector);
    assert(((((z & 0x3fff) | ((x & 0x3fff) << 14) | ((y & 0x3) << 28)) as u32) >> 14) & 0x3fff == (
    x & 0x3fff) as u32) by (bit_vector);
    assert((((z & 0x3fff) | ((x & 0x3fff) << 14) | ((y & 0x3) << 28)) as u32) & 0x3fff == (z
        & 0x3fff) as u32) by (bit_vector);
    assert((((z & 0x3fff) | ((x & 0x3fff) << 14) | ((y & 0x3) << 28)) as u32) < 0x40000000)
        by (bit_vector);
}

/// Packing the unpacked components of a coordinate below bit 30 gives the
/// coordinate back.
pub proof fn lemma_pack_unpacked(p: u32)
    requires
        p < 0x40000000,
    ensures
        packed(level_of(p) as i32, x_of(p) as i32, z_of(p) as i32) == p,
{
    assert(p < 0x40000000 ==> ((((p & 0x3fff) as i32 & 0x3fff) | ((((p >> 14) & 0x3fff) as i32
        & 0x3fff) << 14) | ((((p >> 28) & 0x3) as i32 & 0x3) << 28)) as u32) == p) by (bit_vector);
}

} // verus!
