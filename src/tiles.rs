use vstd::prelude::*;

verus! {

/// Stored id of the breakable block (rendered tile 48).
pub const BREAKABLE_TILE: i16 = 49;

/// Stored id of the bounce pad (rendered tile 112).
pub const BOUNCE_PAD_TILE: i16 = 113;

/// Id that the lookup reports left of the level: a solid wall.
pub const WALL_TILE: i16 = 50;

/// What a tile means to the resolver.
#[derive(Clone, Copy, Debug, PartialEq, Eq, Structural)]
pub enum TileFlag {
    Collision,
    NoCollision,
    OneWayCollision,
    Death,
}

/// The band that a stored id falls in; bands are taken on `id - 1`.
pub open spec fn flag_of(tile: int) -> TileFlag {
    let r = tile - 1;
    if 16 <= r < 32 {
        TileFlag::Death
    } else if 32 <= r < 48 {
        TileFlag::OneWayCollision
    } else if 48 <= r < 64 {
        TileFlag::Collision
    } else {
        TileFlag::NoCollision
    }
}

impl TileFlag {
    pub fn is_one_way(self) -> (r: bool)
        ensures
            r <==> self == TileFlag::OneWayCollision,
    {
        matches!(self, TileFlag::OneWayCollision)
    }

    pub fn is_death(self) -> (r: bool)
        ensures
            r <==> self == TileFlag::Death,
    {
        matches!(self, TileFlag::Death)
    }

    pub fn is_collision(self) -> (r: bool)
        ensures
            r <==> self == TileFlag::Collision,
    {
        matches!(self, TileFlag::Collision)
    }

    pub fn is_no_collision(self) -> (r: bool)
        ensures
            r <==> self == TileFlag::NoCollision,
    {
        matches!(self, TileFlag::NoCollision)
    }
}

/// Maps a stored tile id to its semantic band.
pub fn get_tile_flag(tile: i16) -> (r: TileFlag)
    ensures
        r == flag_of(tile as int),
{
    let t: i32 = tile as i32 - 1;
    if 16 <= t && t < 32 {
        TileFlag::Death
    } else if 32 <= t && t < 48 {
        TileFlag::OneWayCollision
    } else if 48 <= t && t < 64 {
        TileFlag::Collision
    } else {
        TileFlag::NoCollision
    }
}

/// Every stored id in `1..=64` falls in exactly the band that its offset id
/// `id - 1` names (death `16..32`, one-way `32..48`, solid `48..64`, none
/// below), and every id outside `1..=64` means no collision.
pub proof fn lemma_flag_bands(tile: int)
    ensures
        1 <= tile <= 16 ==> flag_of(tile) == TileFlag::NoCollision,
        17 <= tile <= 32 ==> flag_of(tile) == TileFlag::Death,
        33 <= tile <= 48 ==> flag_of(tile) == TileFlag::OneWayCollision,
        49 <= tile <= 64 ==> flag_of(tile) == TileFlag::Collision,
        (tile < 1 || tile > 64) ==> flag_of(tile) == TileFlag::NoCollision,
{
}

} // verus!
