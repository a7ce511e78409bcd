use vstd::prelude::*;
use vstd::string::StringSliceAdditionalSpecFns;

use crate::chunk::{is_authored, stored_tile, ChunkLayer};
use crate::level::{get_all_chunks, get_layer, level_text, LevelError};
use crate::enemy::{Enemy, EnemyType};
use crate::player::Player;
use crate::tiles::{flag_of, TileFlag};
use crate::units::{Vec2i, TILE_SIZE};

verus! {

/// Special-layer id that marks a coin.
pub const COIN_MARK: i16 = 1;

/// Special-layer id that marks a snail: enemy kinds are numbered from this id
/// on, and the only kind there is has number 0.
pub const ENEMY_MARK: i16 = 2;

/// Sub-pixel position of the top-left corner of world tile `p`.
pub open spec fn tile_origin(p: (i16, i16)) -> Vec2i {
    Vec2i { x: (p.0 * TILE_SIZE) as i32, y: (p.1 * TILE_SIZE) as i32 }
}

/// The state of a level that play changes: live enemies, broken blocks,
/// coins still lying about and coins taken.
#[derive(Clone, Debug)]
pub struct WorldState {
    pub enemies: Vec<Enemy>,
    pub broken_tiles: Vec<(i16, i16)>,
    pub coins: Vec<(i16, i16)>,
    pub taken_coins: usize,
}

impl WorldState {
    /// A state with nothing in it.
    pub fn new() -> (r: WorldState)
        ensures
            r.enemies@.len() == 0,
            r.broken_tiles@.len() == 0,
            r.coins@.len() == 0,
            r.taken_coins == 0,
    {
        WorldState { enemies: Vec::new(), broken_tiles: Vec::new(), coins: Vec::new(), taken_coins: 0 }
    }

    /// Records a block as broken; one already recorded is not recorded again.
    pub fn record_broken(&mut self, tile: (i16, i16))
        ensures
            final(self).broken_tiles@ == (if old(self).broken_tiles@.contains(tile) {
                old(self).broken_tiles@
            } else {
                old(self).broken_tiles@.push(tile)
            }),
            final(self).broken_tiles@.contains(tile),
            old(self).broken_tiles@.no_duplicates() ==> final(self).broken_tiles@.no_duplicates(),
            final(self).enemies@ == old(self).enemies@,
            final(self).coins@ == old(self).coins@,
            final(self).taken_coins == old(self).taken_coins,
    {
        let mut i: usize = 0;
        while i < self.broken_tiles.len()
            invariant
                0 <= i <= self.broken_tiles@.len(),
                forall|j: int| 0 <= j < i ==> self.broken_tiles@[j] != tile,
            decreases self.broken_tiles@.len() - i,
        {
            let b = self.broken_tiles[i];
            if b.0 == tile.0 && b.1 == tile.1 {
                assert(self.broken_tiles@[i as int] == tile);
                return;
            }
            i += 1;
        }
        let ghost before = self.broken_tiles@;
        self.broken_tiles.push(tile);
        assert(self.broken_tiles@[before.len() as int] == tile);
        proof {
            if before.no_duplicates() {
                assert forall|a: int, b: int|
                    0 <= a < self.broken_tiles@.len() && 0 <= b < self.broken_tiles@.len() && a
                        != b implies self.broken_tiles@[a] != self.broken_tiles@[b] by {
                    if a < before.len() && b < before.len() {
                        assert(before[a] != before[b]);
                    }
                }
            }
        }
    }
}

/// World column 0 holds a solid tile at row `y`, and none above it.
pub open spec fn is_top_solid(layer: Map<(int, int), Seq<i16>>, y: i16) -> bool {
    &&& flag_of(stored_tile(layer, 0, y as int)) == TileFlag::Collision
    &&& forall|z: i16|
        flag_of(#[trigger] stored_tile(layer, 0, z as int)) == TileFlag::Collision ==> y <= z
}

/// Where the player starts: one tile right of the left edge, one tile above
/// the topmost solid tile of the leftmost column. A level without one puts
/// the player at the bottom of the world.
pub open spec fn spawn_point(layer: Map<(int, int), Seq<i16>>) -> Vec2i {
    if exists|y: i16| is_top_solid(layer, y) {
        let y = choose|y: i16| is_top_solid(layer, y);
        Vec2i { x: TILE_SIZE, y: ((y - 1) * TILE_SIZE) as i32 }
    } else {
        Vec2i { x: TILE_SIZE, y: ((i16::MAX - 1) * TILE_SIZE) as i32 }
    }
}

/// The static geometry of one level, with the state a level starts in.
#[derive(Debug)]
pub struct World {
    pub collision: ChunkLayer,
    pub details: ChunkLayer,
    pub background: ChunkLayer,
    pub special: ChunkLayer,
    /// The state that each start of the level begins with.
    pub world_state: WorldState,
}

fn copy_tiles(v: &Vec<(i16, i16)>) -> (r: Vec<(i16, i16)>)
    ensures
        r@ == v@,
{
    let mut r: Vec<(i16, i16)> = Vec::new();
    let mut i: usize = 0;
    while i < v.len()
        invariant
            0 <= i <= v@.len(),
            r@ == v@.take(i as int),
        decreases v@.len() - i,
    {
        r.push(v[i]);
        i += 1;
        assert(r@ =~= v@.take(i as int));
    }
    assert(v@.take(v@.len() as int) =~= v@);
    r
}

pub(crate) fn tile_position(p: (i16, i16)) -> (r: Vec2i)
    ensures
        r == tile_origin(p),
{
    Vec2i { x: p.0 as i32 * TILE_SIZE, y: p.1 as i32 * TILE_SIZE }
}

impl World {
    /// Assembles a level from its four layers and reads the coins and
    /// enemies marked on the special layer.
    pub fn new(
        collision: ChunkLayer,
        details: ChunkLayer,
        background: ChunkLayer,
        special: ChunkLayer,
    ) -> (r: World)
        ensures
            r.collision@ == collision@,
            r.details@ == details@,
            r.background@ == background@,
            r.special@ == special@,
            forall|p: (i16, i16)|
                r.world_state.coins@.contains(p) <==> stored_tile(special@, p.0 as int, p.1 as int)
                    == COIN_MARK,
            forall|e: Enemy|
                r.world_state.enemies@.contains(e) <==> exists|p: (i16, i16)|
                    stored_tile(special@, p.0 as int, p.1 as int) == ENEMY_MARK && e
                        == #[trigger] Enemy::fresh(tile_origin(p), EnemyType::Snail),
            r.world_state.coins@.no_duplicates(),
            r.world_state.enemies@.no_duplicates(),
            r.world_state.broken_tiles@.len() == 0,
            r.world_state.taken_coins == 0,
    {
        let coins = special.positions_of(COIN_MARK);
        let marks = special.positions_of(ENEMY_MARK);
        let mut enemies: Vec<Enemy> = Vec::new();
        let mut i: usize = 0;
        while i < marks.len()
            invariant
                0 <= i <= marks@.len(),
                marks@.no_duplicates(),
                enemies@.len() == i,
                forall|j: int|
                    0 <= j < i ==> #[trigger] enemies@[j] == Enemy::fresh(
                        tile_origin(marks@[j]),
                        EnemyType::Snail,
                    ),
            decreases marks@.len() - i,
        {
            enemies.push(Enemy::new(tile_position(marks[i]), EnemyType::Snail));
            i += 1;
        }
        assert forall|a: int, b: int|
            0 <= a < enemies@.len() && 0 <= b < enemies@.len() && a != b implies enemies@[a]
            != enemies@[b] by {
            assert(marks@[a] != marks@[b]);
        }
        proof {
            assert forall|e: Enemy|
                enemies@.contains(e) <==> exists|p: (i16, i16)|
                    stored_tile(special@, p.0 as int, p.1 as int) == ENEMY_MARK && e
                        == #[trigger] Enemy::fresh(tile_origin(p), EnemyType::Snail) by {
                if enemies@.contains(e) {
                    let j = choose|j: int| 0 <= j < enemies@.len() && enemies@[j] == e;
                    assert(marks@.contains(marks@[j]));
                }
                if exists|p: (i16, i16)|
                    stored_tile(special@, p.0 as int, p.1 as int) == ENEMY_MARK && e
                        == #[trigger] Enemy::fresh(tile_origin(p), EnemyType::Snail) {
                    let p = choose|p: (i16, i16)|
                        stored_tile(special@, p.0 as int, p.1 as int) == ENEMY_MARK && e
                            == #[trigger] Enemy::fresh(tile_origin(p), EnemyType::Snail);
                    assert(marks@.contains(p));
                    let j = choose|j: int| 0 <= j < marks@.len() && marks@[j] == p;
                    assert(enemies@[j] == e);
                }
            }
        }
        let world_state = WorldState { enemies, broken_tiles: Vec::new(), coins, taken_coins: 0 };
        World { collision, details, background, special, world_state }
    }

    /// Reads a level file: its collision, detail, special and background
    /// layers, and the coins and enemies marked on the special layer.
    pub fn from_data(xml: &str) -> (r: Result<World, LevelError>)
        ensures
            match r {
                Ok(w) => level_text(xml.spec_bytes()) matches Ok((co, de, sp, bg)) && w.collision@
                    == co && w.details@ == de && w.special@ == sp && w.background@ == bg && (
                forall|p: (i16, i16)|
                    w.world_state.coins@.contains(p) <==> stored_tile(sp, p.0 as int, p.1 as int)
                        == COIN_MARK) && (forall|e: Enemy|
                    w.world_state.enemies@.contains(e) <==> exists|p: (i16, i16)|
                        stored_tile(sp, p.0 as int, p.1 as int) == ENEMY_MARK && e
                            == #[trigger] Enemy::fresh(tile_origin(p), EnemyType::Snail))
                    && w.world_state.coins@.no_duplicates()
                    && w.world_state.enemies@.no_duplicates()
                    && w.world_state.broken_tiles@.len() == 0 && w.world_state.taken_coins == 0,
                Err(e) => level_text(xml.spec_bytes()) == Err::<
                    (
                        Map<(int, int), Seq<i16>>,
                        Map<(int, int), Seq<i16>>,
                        Map<(int, int), Seq<i16>>,
                        Map<(int, int), Seq<i16>>,
                    ),
                    LevelError,
                >(e),
            },
    {
        let bytes = xml.as_bytes();
        let collision_name: [u8; 9] = [99, 111, 108, 108, 105, 115, 105, 111, 110];
        let detail_name: [u8; 6] = [100, 101, 116, 97, 105, 108];
        let special_name: [u8; 7] = [115, 112, 101, 99, 105, 97, 108];
        let background_name: [u8; 10] = [98, 97, 99, 107, 103, 114, 111, 117, 110, 100];
        assert(collision_name@ =~= crate::level::collision_name());
        assert(detail_name@ =~= crate::level::detail_name());
        assert(special_name@ =~= crate::level::special_name());
        assert(background_name@ =~= crate::level::background_name());
        let collision_text = get_layer(bytes, collision_name.as_slice());
        let detail_text = get_layer(bytes, detail_name.as_slice());
        let special_text = get_layer(bytes, special_name.as_slice());
        let background_text = get_layer(bytes, background_name.as_slice());
        let (collision_text, detail_text, special_text, background_text) = match (
            collision_text,
            detail_text,
            special_text,
            background_text,
        ) {
            (Ok(c), Ok(d), Ok(s), Ok(b)) => (c, d, s, b),
            _ => {
                return Err(LevelError::MissingLayer);
            },
        };
        let special = get_all_chunks(special_text)?;
        let collision = get_all_chunks(collision_text)?;
        let details = get_all_chunks(detail_text)?;
        let background = get_all_chunks(background_text)?;
        Ok(World::new(collision, details, background, special))
    }

    /// A fresh copy of the level's start state, and a player at the spawn
    /// point.
    pub fn load_level(&self) -> (r: (WorldState, Player))
        ensures
            r.0.enemies@ == self.world_state.enemies@,
            r.0.broken_tiles@ == self.world_state.broken_tiles@,
            r.0.coins@ == self.world_state.coins@,
            r.0.taken_coins == self.world_state.taken_coins,
            r.1 == Player::spawned(spawn_point(self.collision@)),
    {
        let state = WorldState {
            enemies: self.world_state.enemies.clone(),
            broken_tiles: copy_tiles(&self.world_state.broken_tiles),
            coins: copy_tiles(&self.world_state.coins),
            taken_coins: self.world_state.taken_coins,
        };
        assert(state.enemies@ =~= self.world_state.enemies@);
        (state, Player::new(self.get_player_spawn()))
    }

    /// Position of a special-layer tile marked with `tile_index + 1`, if one
    /// exists; which one, where several do, is left open.
    pub fn get_interactable_spawn(&self, tile_index: i16) -> (r: Option<Vec2i>)
        ensures
            match r {
                Some(v) => exists|p: (i16, i16)|
                    is_authored(self.special@, p.0 as int, p.1 as int) && stored_tile(
                        self.special@,
                        p.0 as int,
                        p.1 as int,
                    ) == tile_index + 1 && v == #[trigger] tile_origin(p),
                None => forall|p: (i16, i16)|
                    !(is_authored(self.special@, p.0 as int, p.1 as int) && #[trigger] stored_tile(
                        self.special@,
                        p.0 as int,
                        p.1 as int,
                    ) == tile_index + 1),
            },
    {
        if tile_index == i16::MAX {
            // no stored id goes beyond i16::MAX
            return None;
        }
        let found = self.special.positions_of(tile_index + 1);
        if found.len() > 0 {
            assert(found@.contains(found@[0]));
            Some(tile_position(found[0]))
        } else {
            assert forall|p: (i16, i16)|
                !(is_authored(self.special@, p.0 as int, p.1 as int) && #[trigger] stored_tile(
                    self.special@,
                    p.0 as int,
                    p.1 as int,
                ) == tile_index + 1) by {
                if found@.contains(p) {
                    let j = choose|j: int| 0 <= j < found@.len() && found@[j] == p;
                }
            }
            None
        }
    }

    /// Where the player starts: see `spawn_point`.
    pub fn get_player_spawn(&self) -> (r: Vec2i)
        ensures
            r == spawn_point(self.collision@),
    {
        match self.collision.top_solid_at_left_edge() {
            Some(y) => {
                assert(is_top_solid(self.collision@, y));
                proof {
                    let c = choose|c: i16| is_top_solid(self.collision@, c);
                    assert(c <= y && y <= c);
                }
                Vec2i { x: TILE_SIZE, y: (y as i32 - 1) * TILE_SIZE }
            },
            None => {
                assert(!exists|y: i16| is_top_solid(self.collision@, y));
                Vec2i { x: TILE_SIZE, y: (i16::MAX as i32 - 1) * TILE_SIZE }
            },
        }
    }
}

} // verus!
