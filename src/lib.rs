//! Tile-world core of a small platformer: chunked tile storage, tile
//! semantics, the axis-separated collision resolver, level-state derivation
//! and the actors that drive it, all in integer sub-pixel units.

mod animation;
mod chunk;
mod enemy;
mod level;
mod physics;
mod player;
mod session;
mod tiles;
mod units;
mod world;

pub use animation::{split_by_tags, Animation};
pub use chunk::{get_tile, Chunk, ChunkLayer};
pub use enemy::{Enemy, EnemyType};
pub use level::{get_all_chunks, get_layer, parse_chunk, parse_i16, LevelError};
pub use physics::{update_physicsbody, BOUNCE_VELOCITY, TOUCH_RADIUS_SQ};
pub use player::{
    AnimState, Player, PlayerInput, PlayerState, PlayerUpdateResult, CAMERA_RISE,
    HALF_SCREEN_WIDTH,
};
pub use session::{
    capped_step, collect_coins, tile_visible, update_enemies, MAX_STEP_MICROS, STOMP_BOUNCE,
};
pub use tiles::{get_tile_flag, TileFlag, BOUNCE_PAD_TILE, BREAKABLE_TILE, WALL_TILE};
pub use units::{Vec2i, GRAVITY, MICROS_PER_SECOND, SUBPIXELS, TILE_PIXELS, TILE_SIZE};
pub use world::{World, WorldState, COIN_MARK, ENEMY_MARK};
