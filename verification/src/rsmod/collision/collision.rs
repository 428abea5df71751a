//! The world's tile collision flags, stored per 8x8-tile zone.
//!
//! A zone is absent until its first write; every tile of an absent zone reads
//! as `NULL`, which blocks all movement. A newly created zone starts `OPEN`.
use crate::rsmod::flag::collision_flag::{NULL, OPEN};
use vstd::hash_map::HashMapWithView;
use vstd::prelude::*;

verus! {

broadcast use vstd::std_specs::hash::group_hash_axioms;

pub const ZONE_TILE_COUNT: usize = 64;
pub const TOTAL_ZONE_COUNT: usize = 16777216;

/// The zone that holds tile `(x, z)` of level `y`: bits 3-13 of x and z and
/// bits 0-1 of y.
pub open spec fn zone_index_of(x: i32, z: i32, y: i32) -> usize {
    (((x >> 3) & 0x7ff) | (((z >> 3) & 0x7ff) << 11) | ((y & 0x3) << 22)) as usize
}

/// The place of tile `(x, z)` inside its zone: bits 0-2 of x and z.
pub open spec fn tile_index_of(x: i32, z: i32) -> usize {
    ((x & 0x7) | ((z & 0x7) << 3)) as usize
}

/// Two coordinates name the same stored tile.
pub open spec fn same_tile(x1: i32, z1: i32, y1: i32, x2: i32, z2: i32, y2: i32) -> bool {
    zone_index_of(x1, z1, y1) == zone_index_of(x2, z2, y2) && tile_index_of(x1, z1)
        == tile_index_of(x2, z2)
}

/// Every stored zone holds 64 tiles.
pub open spec fn zones_sized(m: Map<usize, Seq<u32>>) -> bool {
    forall|k: usize| #[trigger] m.contains_key(k) ==> m[k].len() == ZONE_TILE_COUNT
}

/// The flag a map of zones holds for tile `(x, z, y)`: `NULL` when its zone is absent.
pub open spec fn flag_in(m: Map<usize, Seq<u32>>, x: i32, z: i32, y: i32) -> u32 {
    let zone = zone_index_of(x, z, y);
    if m.contains_key(zone) {
        m[zone][tile_index_of(x, z) as int]
    } else {
        NULL
    }
}

/// The flag a tile has once its zone exists: an absent zone counts as `OPEN`.
pub open spec fn base_flag_in(m: Map<usize, Seq<u32>>, x: i32, z: i32, y: i32) -> u32 {
    if m.contains_key(zone_index_of(x, z, y)) {
        flag_in(m, x, z, y)
    } else {
        OPEN
    }
}

/// The zones after writing `value` to tile `(x, z, y)`, creating its zone
/// (all `OPEN`) when absent.
pub open spec fn with_flag(m: Map<usize, Seq<u32>>, x: i32, z: i32, y: i32, value: u32) -> Map<
    usize,
    Seq<u32>,
> {
    let zone = zone_index_of(x, z, y);
    let tiles = if m.contains_key(zone) {
        m[zone]
    } else {
        Seq::new(ZONE_TILE_COUNT as nat, |i: int| OPEN)
    };
    m.insert(zone, tiles.update(tile_index_of(x, z) as int, value))
}

/// The zones after making sure the zone of `(x, z, y)` exists.
pub open spec fn with_zone(m: Map<usize, Seq<u32>>, x: i32, z: i32, y: i32) -> Map<
    usize,
    Seq<u32>,
> {
    let zone = zone_index_of(x, z, y);
    if m.contains_key(zone) {
        m
    } else {
        m.insert(zone, Seq::new(ZONE_TILE_COUNT as nat, |i: int| OPEN))
    }
}

pub proof fn lemma_indices_in_range(x: i32, z: i32, y: i32)
    ensures
        zone_index_of(x, z, y) < TOTAL_ZONE_COUNT,
        tile_index_of(x, z) < ZONE_TILE_COUNT,
{
    assert(0 <= (((x >> 3) & 0x7ff) | (((z >> 3) & 0x7ff) << 11) | ((y & 0x3) << 22)) < 0x1000000)
        by (bit_vector);
    assert(0 <= ((x & 0x7) | ((z & 0x7) << 3)) < 64) by (bit_vector);
}

/// Two coordinates name the same stored tile exactly when their low fourteen
/// bits of x and of z and their low two bits of level agree.
pub proof fn lemma_same_tile_bits(x1: i32, z1: i32, y1: i32, x2: i32, z2: i32, y2: i32)
    ensures
        same_tile(x1, z1, y1, x2, z2, y2) <==> (x1 & 0x3fff == x2 & 0x3fff && z1 & 0x3fff == z2
            & 0x3fff && y1 & 0x3 == y2 & 0x3),
{
    assert((((x1 >> 3) & 0x7ff) | (((z1 >> 3) & 0x7ff) << 11) | ((y1 & 0x3) << 22)) == (((x2
        >> 3) & 0x7ff) | (((z2 >> 3) & 0x7ff) << 11) | ((y2 & 0x3) << 22)) && ((x1 & 0x7) | ((z1
        & 0x7) << 3)) == ((x2 & 0x7) | ((z2 & 0x7) << 3)) <==> (x1 & 0x3fff == x2 & 0x3fff && z1
        & 0x3fff == z2 & 0x3fff && y1 & 0x3 == y2 & 0x3)) by (bit_vector);
    assert(0 <= ((x1 >> 3) & 0x7ff) | (((z1 >> 3) & 0x7ff) << 11) | ((y1 & 0x3) << 22)) by (bit_vector);
    assert(0 <= ((x2 >> 3) & 0x7ff) | (((z2 >> 3) & 0x7ff) << 11) | ((y2 & 0x3) << 22)) by (bit_vector);
    assert(0 <= (x1 & 0x7) | ((z1 & 0x7) << 3)) by (bit_vector);
    assert(0 <= (x2 & 0x7) | ((z2 & 0x7) << 3)) by (bit_vector);
}

/// What a tile reads after a write: the written value on the written tile,
/// `OPEN` on the other tiles of a zone the write created, and the old value
/// everywhere else.
pub proof fn lemma_flag_after_write(
    m: Map<usize, Seq<u32>>,
    x: i32,
    z: i32,
    y: i32,
    value: u32,
    x2: i32,
    z2: i32,
    y2: i32,
)
    requires
        zones_sized(m),
    ensures
        zones_sized(with_flag(m, x, z, y, value)),
        flag_in(with_flag(m, x, z, y, value), x2, z2, y2) == if same_tile(x, z, y, x2, z2, y2) {
            value
        } else if zone_index_of(x, z, y) == zone_index_of(x2, z2, y2) && !m.contains_key(
            zone_index_of(x, z, y),
        ) {
            OPEN
        } else {
            flag_in(m, x2, z2, y2)
        },
{
    lemma_indices_in_range(x, z, y);
    lemma_indices_in_range(x2, z2, y2);
}

/// Counting an absent zone's tiles as `OPEN`, a write changes the written
/// tile and nothing else.
pub proof fn lemma_base_after_write(
    m: Map<usize, Seq<u32>>,
    x: i32,
    z: i32,
    y: i32,
    value: u32,
    x2: i32,
    z2: i32,
    y2: i32,
)
    requires
        zones_sized(m),
    ensures
        base_flag_in(with_flag(m, x, z, y, value), x2, z2, y2) == if same_tile(x, z, y, x2, z2, y2) {
            value
        } else {
            base_flag_in(m, x2, z2, y2)
        },
{
    lemma_flag_after_write(m, x, z, y, value, x2, z2, y2);
}

/// Two zone maps with the same zones, all of them among the world's, that
/// read alike on every tile are the same map.
pub proof fn lemma_zones_equal_by_tiles(m1: Map<usize, Seq<u32>>, m2: Map<usize, Seq<u32>>)
    requires
        zones_sized(m1),
        zones_sized(m2),
        m1.dom() == m2.dom(),
        forall|k: usize| #[trigger] m1.contains_key(k) ==> k < TOTAL_ZONE_COUNT,
        forall|x: i32, z: i32, y: i32| #[trigger] flag_in(m1, x, z, y) == flag_in(m2, x, z, y),
    ensures
        m1 == m2,
{
    assert forall|k: usize| #[trigger] m1.contains_key(k) implies m1[k] =~= m2[k] by {
        assert forall|i: int| 0 <= i < m1[k].len() implies m1[k][i] == m2[k][i] by {
            let iu = i as usize;
            let x: i32 = (((k & 0x7ff) << 3usize) | (iu & 7)) as i32;
            let z: i32 = ((((k >> 11usize) & 0x7ff) << 3usize) | (iu >> 3usize)) as i32;
            let y: i32 = ((k >> 22usize) & 3) as i32;
            assert(k < 0x1000000 && iu < 64 && x == (((k & 0x7ff) << 3usize) | (iu & 7)) as i32
                && z == ((((k >> 11usize) & 0x7ff) << 3usize) | (iu >> 3usize)) as i32 && y == ((k
                >> 22usize) & 3) as i32 ==> ((((x >> 3) & 0x7ff) | (((z >> 3) & 0x7ff) << 11) | ((
            y & 0x3) << 22)) as usize == k && ((x & 0x7) | ((z & 0x7) << 3)) as usize == iu))
                by (bit_vector);
            assert(flag_in(m1, x, z, y) == flag_in(m2, x, z, y));
        }
    }
    assert(m1 =~= m2);
}

pub struct CollisionFlagMap {
    flags: HashMapWithView<usize, Vec<u32>>,
}

impl View for CollisionFlagMap {
    type V = Map<usize, Seq<u32>>;

    closed spec fn view(&self) -> Map<usize, Seq<u32>> {
        self.flags@.map_values(|zone: Vec<u32>| zone@)
    }
}

impl CollisionFlagMap {
    #[verifier::type_invariant]
    spec fn zones_have_all_tiles(&self) -> bool {
        forall|k: usize| #[trigger]
            self.flags@.contains_key(k) ==> self.flags@[k].len() == ZONE_TILE_COUNT
    }

    /// The collision flag of tile `(x, z)` on level `y`.
    pub open spec fn tile_flag(&self, x: int, z: int, y: int) -> u32 {
        flag_in(self@, x as i32, z as i32, y as i32)
    }

    pub open spec fn zone_allocated(&self, x: int, z: int, y: int) -> bool {
        self@.contains_key(zone_index_of(x as i32, z as i32, y as i32))
    }

    pub fn zone_index(x: i32, z: i32, y: i32) -> (r: usize)
        ensures
            r == zone_index_of(x, z, y),
            r < TOTAL_ZONE_COUNT,
    {
        proof {
            lemma_indices_in_range(x, z, y);
        }
        (((x >> 3) & 0x7ff) | (((z >> 3) & 0x7ff) << 11) | ((y & 0x3) << 22)) as usize
    }

    pub fn tile_index(x: i32, z: i32) -> (r: usize)
        ensures
            r == tile_index_of(x, z),
            r < ZONE_TILE_COUNT,
    {
        proof {
            lemma_indices_in_range(x, 0, 0);
            lemma_indices_in_range(x, z, 0);
        }
        ((x & 0x7) | ((z & 0x7) << 3)) as usize
    }

    fn empty_zones() -> (r: HashMapWithView<usize, Vec<u32>>)
        ensures
            r@ == Map::<usize, Vec<u32>>::empty(),
    {
        HashMapWithView::new()
    }

    /// An empty map: every zone is absent.
    pub fn new() -> (r: CollisionFlagMap)
        ensures
            r@ == Map::<usize, Seq<u32>>::empty(),
            forall|x: int, z: int, y: int| #[trigger] r.tile_flag(x, z, y) == NULL,
    {
        let r = CollisionFlagMap { flags: Self::empty_zones() };
        assert(r@ =~= Map::<usize, Seq<u32>>::empty());
        r
    }

    /// Every zone of a map holds one flag for each of its 64 tiles: the fact
    /// the laws over the map's contents take as given.
    pub fn zones_are_whole(&self)
        ensures
            zones_sized(self@),
    {
        proof {
            use_type_invariant(self);
        }
    }

    pub fn get(&self, x: i32, z: i32, y: i32) -> (r: u32)
        ensures
            r == self.tile_flag(x as int, z as int, y as int),
    {
        proof {
            use_type_invariant(self);
        }
        let zone = Self::zone_index(x, z, y);
        match self.flags.get(&zone) {
            Some(tiles) => tiles[Self::tile_index(x, z)],
            None => NULL,
        }
    }

    /// Takes the zone out of the map, or a fresh `OPEN` zone when it is absent.
    fn take_zone(&mut self, zone: usize) -> (tiles: Vec<u32>)
        ensures
            tiles.len() == ZONE_TILE_COUNT,
            tiles@ == (if old(self)@.contains_key(zone) {
                old(self)@[zone]
            } else {
                Seq::new(ZONE_TILE_COUNT as nat, |i: int| OPEN)
            }),
            final(self)@ == old(self)@.remove(zone),
    {
        proof {
            use_type_invariant(&*self);
        }
        let mut flags = Self::empty_zones();
        std::mem::swap(&mut flags, &mut self.flags);
        let taken = flags.remove(&zone);
        std::mem::swap(&mut flags, &mut self.flags);
        assert(self@ =~= old(self)@.remove(zone));
        match taken {
            Some(tiles) => tiles,
            None => {
                let tiles = vec![OPEN; ZONE_TILE_COUNT];
                assert(tiles@ =~= Seq::new(ZONE_TILE_COUNT as nat, |i: int| OPEN));
                tiles
            },
        }
    }

    fn put_zone(&mut self, zone: usize, tiles: Vec<u32>)
        requires
            tiles.len() == ZONE_TILE_COUNT,
        ensures
            final(self)@ == old(self)@.insert(zone, tiles@),
    {
        proof {
            use_type_invariant(&*self);
        }
        let mut flags = Self::empty_zones();
        std::mem::swap(&mut flags, &mut self.flags);
        flags.insert(zone, tiles);
        std::mem::swap(&mut flags, &mut self.flags);
        assert(self@ =~= old(self)@.insert(zone, tiles@));
    }

    /// Overwrites the flag of one tile, creating its zone when absent.
    pub fn set(&mut self, x: i32, z: i32, y: i32, mask: u32)
        ensures
            final(self)@ == with_flag(old(self)@, x, z, y, mask),
            final(self).tile_flag(x as int, z as int, y as int) == mask,
    {
        let zone = Self::zone_index(x, z, y);
        let tile = Self::tile_index(x, z);
        let mut tiles = self.take_zone(zone);
        tiles.set(tile, mask);
        self.put_zone(zone, tiles);
    }

    /// Sets the bits of `mask` on one tile, creating its zone when absent.
    pub fn add(&mut self, x: i32, z: i32, y: i32, mask: u32)
        ensures
            final(self)@ == with_flag(old(self)@, x, z, y, base_flag_in(old(self)@, x, z, y) | mask),
            final(self).tile_flag(x as int, z as int, y as int) == base_flag_in(old(self)@, x, z, y) | mask,
    {
        let zone = Self::zone_index(x, z, y);
        let tile = Self::tile_index(x, z);
        let mut tiles = self.take_zone(zone);
        let value = tiles[tile] | mask;
        tiles.set(tile, value);
        self.put_zone(zone, tiles);
    }

    /// Clears the bits of `mask` on one tile, creating its zone when absent.
    pub fn remove(&mut self, x: i32, z: i32, y: i32, mask: u32)
        ensures
            final(self)@ == with_flag(old(self)@, x, z, y, base_flag_in(old(self)@, x, z, y) & !mask),
            final(self).tile_flag(x as int, z as int, y as int) == base_flag_in(old(self)@, x, z, y) & !mask,
    {
        let zone = Self::zone_index(x, z, y);
        let tile = Self::tile_index(x, z);
        let mut tiles = self.take_zone(zone);
        let value = tiles[tile] & !mask;
        tiles.set(tile, value);
        self.put_zone(zone, tiles);
    }

    /// Creates the zone of `(x, z, y)`, all `OPEN`, unless it exists.
    pub fn allocate_if_absent(&mut self, x: i32, z: i32, y: i32)
        ensures
            final(self)@ == with_zone(old(self)@, x, z, y),
    {
        proof {
            use_type_invariant(&*self);
        }
        let zone = Self::zone_index(x, z, y);
        if !self.flags.contains_key(&zone) {
            let tiles = vec![OPEN; ZONE_TILE_COUNT];
            assert(tiles@ =~= Seq::new(ZONE_TILE_COUNT as nat, |i: int| OPEN));
            self.put_zone(zone, tiles);
        }
    }

    /// Drops the zone of `(x, z, y)`; its tiles read as `NULL` again.
    pub fn deallocate_if_present(&mut self, x: i32, z: i32, y: i32)
        ensures
            final(self)@ == old(self)@.remove(zone_index_of(x, z, y)),
    {
        let zone = Self::zone_index(x, z, y);
        let _ = self.take_zone(zone);
    }

    pub fn is_zone_allocated(&self, x: i32, z: i32, y: i32) -> (r: bool)
        ensures
            r == self.zone_allocated(x as int, z as int, y as int),
    {
        let zone = Self::zone_index(x, z, y);
        self.flags.contains_key(&zone)
    }

    /// Whether any bit of `masks` is set on the tile; `false` in an absent zone.
    pub fn is_flagged(&self, x: i32, z: i32, y: i32, masks: u32) -> (r: bool)
        ensures
            r == (self.zone_allocated(x as int, z as int, y as int) && self.tile_flag(x as int, z as int, y as int) & masks != OPEN),
    {
        proof {
            use_type_invariant(self);
        }
        let zone = Self::zone_index(x, z, y);
        match self.flags.get(&zone) {
            None => false,
            Some(tiles) => tiles[Self::tile_index(x, z)] & masks != OPEN,
        }
    }
}

} // verus!
