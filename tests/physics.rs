use gnobbler::{
    get_tile, get_tile_flag, update_physicsbody, Chunk, ChunkLayer, TileFlag, Vec2i, World,
    WorldState, BOUNCE_PAD_TILE, BOUNCE_VELOCITY, BREAKABLE_TILE, TILE_SIZE, WALL_TILE,
};

const PX: i32 = 256;

fn chunk_with(x: i16, y: i16, cells: &[(usize, usize, i16)]) -> Chunk {
    let mut tiles = vec![0i16; 256];
    for &(lx, ly, id) in cells {
        tiles[lx + ly * 16] = id;
    }
    Chunk { x, y, tiles }
}

fn world_with(cells: &[(usize, usize, i16)]) -> World {
    let mut collision = ChunkLayer::new();
    assert!(collision.insert(chunk_with(0, 0, cells)));
    World::new(collision, ChunkLayer::new(), ChunkLayer::new(), ChunkLayer::new())
}

#[test]
fn lookup_left_of_level_is_wall() {
    let world = world_with(&[]);
    assert_eq!(get_tile(&world.collision, -1, 0), WALL_TILE);
    assert_eq!(get_tile(&world.collision, i16::MIN, i16::MAX), WALL_TILE);
    assert_eq!(get_tile_flag(WALL_TILE), TileFlag::Collision);
}

#[test]
fn lookup_absent_chunk_is_empty() {
    let world = world_with(&[(5, 2, 60)]);
    assert_eq!(get_tile(&world.collision, 100, 100), 0);
    assert_eq!(get_tile(&world.collision, 16, 0), 0);
    assert_eq!(get_tile(&world.collision, 5, -1), 0);
    assert_eq!(get_tile(&world.collision, i16::MAX, i16::MIN), 0);
}

#[test]
fn lookup_reads_local_offset() {
    let mut layer = ChunkLayer::new();
    assert!(layer.insert(chunk_with(0, 0, &[(5, 2, 7)])));
    assert!(layer.insert(chunk_with(16, -16, &[(3, 15, 9)])));
    assert_eq!(get_tile(&layer, 5, 2), 7);
    assert_eq!(get_tile(&layer, 2, 5), 0);
    assert_eq!(get_tile(&layer, 19, -1), 9);
}

#[test]
fn layer_refuses_off_grid_and_short_chunks() {
    let mut layer = ChunkLayer::new();
    assert!(!layer.insert(chunk_with(3, 0, &[])));
    assert!(!layer.insert(Chunk { x: 0, y: 0, tiles: vec![1; 10] }));
    assert_eq!(get_tile(&layer, 0, 0), 0);
}

#[test]
fn chunk_tile_at_bounds() {
    let c = chunk_with(0, 0, &[(15, 15, 4), (0, 1, 3)]);
    assert_eq!(c.tile_at(15, 15), Some(4));
    assert_eq!(c.tile_at(0, 1), Some(3));
    assert_eq!(c.tile_at(16, 0), None);
    assert_eq!(c.tile_at(0, 16), None);
}

#[test]
fn flag_bands() {
    assert_eq!(get_tile_flag(0), TileFlag::NoCollision);
    assert_eq!(get_tile_flag(1), TileFlag::NoCollision);
    assert_eq!(get_tile_flag(16), TileFlag::NoCollision);
    assert_eq!(get_tile_flag(17), TileFlag::Death);
    assert_eq!(get_tile_flag(32), TileFlag::Death);
    assert_eq!(get_tile_flag(33), TileFlag::OneWayCollision);
    assert_eq!(get_tile_flag(48), TileFlag::OneWayCollision);
    assert_eq!(get_tile_flag(49), TileFlag::Collision);
    assert_eq!(get_tile_flag(64), TileFlag::Collision);
    assert_eq!(get_tile_flag(65), TileFlag::NoCollision);
    assert_eq!(get_tile_flag(BOUNCE_PAD_TILE), TileFlag::NoCollision);
    assert_eq!(get_tile_flag(-5), TileFlag::NoCollision);
    assert_eq!(get_tile_flag(i16::MIN), TileFlag::NoCollision);
    assert!(get_tile_flag(20).is_death());
    assert!(get_tile_flag(40).is_one_way());
    assert!(get_tile_flag(50).is_collision());
    assert!(get_tile_flag(0).is_no_collision());
}

#[test]
fn fall_and_land() {
    let world = world_with(&[(0, 1, 50)]);
    let mut v = Vec2i::new(0, 100 * PX);
    let (pos, grounded, died, broke) =
        update_physicsbody(Vec2i::new(0, 0), &mut v, 100_000, &world, &[]);
    assert_eq!(pos, Vec2i::new(0, 0));
    assert_eq!(v.y, 0);
    assert!(grounded);
    assert!(!died);
    assert_eq!(broke, None);
}

#[test]
fn free_fall_moves_by_velocity() {
    let world = world_with(&[]);
    let mut v = Vec2i::new(30 * PX, 100 * PX);
    let (pos, grounded, _, _) =
        update_physicsbody(Vec2i::new(4 * TILE_SIZE, 0), &mut v, 100_000, &world, &[]);
    assert_eq!(pos, Vec2i::new(4 * TILE_SIZE + 3 * PX, 10 * PX));
    assert_eq!(v, Vec2i::new(30 * PX, 100 * PX));
    assert!(!grounded);
}

#[test]
fn one_way_lets_rising_body_through() {
    let world = world_with(&[(0, 1, 33)]);
    let mut v = Vec2i::new(0, -100 * PX);
    let (pos, grounded, _, _) =
        update_physicsbody(Vec2i::new(0, 2 * TILE_SIZE), &mut v, 100_000, &world, &[]);
    assert_eq!(pos.y, 2 * TILE_SIZE - 10 * PX);
    assert_eq!(v.y, -100 * PX);
    assert!(!grounded);
}

#[test]
fn one_way_catches_falling_body() {
    let world = world_with(&[(0, 1, 33)]);
    let mut v = Vec2i::new(0, 10_000);
    let (pos, grounded, _, _) = update_physicsbody(Vec2i::new(0, 0), &mut v, 100_000, &world, &[]);
    assert_eq!(pos.y, 0);
    assert_eq!(v.y, 0);
    assert!(grounded);
}

#[test]
fn breakable_block_breaks_and_stays_broken() {
    let world = world_with(&[(0, 1, BREAKABLE_TILE)]);
    let mut state = WorldState::new();
    let start = Vec2i::new(0, 2 * TILE_SIZE);

    let mut v = Vec2i::new(0, -100 * PX);
    let (pos, grounded, _, broke) =
        update_physicsbody(start, &mut v, 100_000, &world, &state.broken_tiles);
    assert_eq!(broke, Some((0, 1)));
    assert_eq!(pos.y, 2 * TILE_SIZE);
    assert_eq!(v.y, 0);
    assert!(!grounded);

    state.record_broken((0, 1));
    state.record_broken((0, 1));
    assert_eq!(state.broken_tiles, vec![(0, 1)]);

    for _ in 0..3 {
        let mut v = Vec2i::new(0, -100 * PX);
        let (pos, _, _, broke) =
            update_physicsbody(start, &mut v, 100_000, &world, &state.broken_tiles);
        assert_eq!(broke, None);
        assert_eq!(pos.y, 2 * TILE_SIZE - 10 * PX);
        assert_eq!(v.y, -100 * PX);
    }

    let (fresh, _) = world.load_level();
    assert!(fresh.broken_tiles.is_empty());
    let mut v = Vec2i::new(0, -100 * PX);
    let (_, _, _, broke) = update_physicsbody(start, &mut v, 100_000, &world, &fresh.broken_tiles);
    assert_eq!(broke, Some((0, 1)));
}

#[test]
fn left_edge_is_a_wall() {
    let world = world_with(&[]);
    for &(x, vx, dt) in &[
        (0, -100 * PX, 100_000u32),
        (1000, -1, 1_000_000),
        (TILE_SIZE - 1, i32::MIN, u32::MAX),
        (0, -3 * PX, 16_666),
    ] {
        let mut v = Vec2i::new(vx, 0);
        let (pos, _, _, _) = update_physicsbody(Vec2i::new(x, 0), &mut v, dt, &world, &[]);
        assert!(pos.x >= 0, "x {} vx {} dt {} gave {}", x, vx, dt, pos.x);
    }
    let mut v = Vec2i::new(-100 * PX, 0);
    let (pos, _, _, _) = update_physicsbody(Vec2i::new(0, 0), &mut v, 100_000, &world, &[]);
    assert_eq!(pos.x, 0);
    assert_eq!(v.x, 0);
}

#[test]
fn wall_stops_horizontal_motion() {
    let world = world_with(&[(3, 0, 50)]);
    let mut v = Vec2i::new(100 * PX, 0);
    let (pos, _, _, _) =
        update_physicsbody(Vec2i::new(2 * TILE_SIZE + 100, 0), &mut v, 100_000, &world, &[]);
    assert_eq!(pos.x, 3 * TILE_SIZE);
    assert_eq!(v.x, 0);
}

#[test]
fn death_tile_within_reach() {
    let world = world_with(&[(3, 0, 17)]);
    let mut v = Vec2i::new(0, 0);
    let (_, _, died, _) = update_physicsbody(Vec2i::new(5325, 0), &mut v, 0, &world, &[]);
    assert!(died);

    let mut v = Vec2i::new(0, 0);
    let (_, _, died, _) = update_physicsbody(Vec2i::new(5120, 0), &mut v, 0, &world, &[]);
    assert!(!died);
}

#[test]
fn death_tile_touched_even_when_solid_beside() {
    let world = world_with(&[(3, 0, 17), (3, 1, 50), (2, 1, 50)]);
    let mut v = Vec2i::new(0, 0);
    let (_, _, died, _) = update_physicsbody(Vec2i::new(5325, 0), &mut v, 0, &world, &[]);
    assert!(died);
}

#[test]
fn bounce_pad_kicks_upward() {
    let world = world_with(&[(3, 0, BOUNCE_PAD_TILE)]);
    let mut v = Vec2i::new(0, 1);
    let (_, _, _, _) = update_physicsbody(Vec2i::new(5325, 0), &mut v, 0, &world, &[]);
    assert_eq!(v.y, BOUNCE_VELOCITY);
    assert_eq!(BOUNCE_VELOCITY, -270 * PX);

    let mut v = Vec2i::new(0, -1);
    let (_, _, _, _) = update_physicsbody(Vec2i::new(5325, 0), &mut v, 0, &world, &[]);
    assert_eq!(v.y, -1);
}
