use gnobbler::{
    capped_step, MAX_STEP_MICROS, split_by_tags, tile_visible, collect_coins, update_enemies, AnimState, Animation, Chunk, ChunkLayer, Enemy, EnemyType,
    Player, PlayerInput, PlayerState, PlayerUpdateResult, Vec2i, World, WorldState, CAMERA_RISE,
    HALF_SCREEN_WIDTH, STOMP_BOUNCE, TILE_SIZE,
};

const PX: i32 = 256;

fn floor_world(solid: &[(usize, usize)]) -> World {
    let mut tiles = vec![0i16; 256];
    for &(x, y) in solid {
        tiles[x + y * 16] = 50;
    }
    let mut collision = ChunkLayer::new();
    assert!(collision.insert(Chunk { x: 0, y: 0, tiles }));
    World::new(collision, ChunkLayer::new(), ChunkLayer::new(), ChunkLayer::new())
}

const IDLE: PlayerInput = PlayerInput { horizontal: 0, jump_held: false, jump_pressed: false };

#[test]
fn animation_frames_loop() {
    let anim = Animation::new(vec![('a', 100), ('b', 50), ('c', 0), ('d', 25)]).unwrap();
    assert_eq!(anim.total_length, 175);
    assert_eq!(*anim.get_at_time(0), 'a');
    assert_eq!(*anim.get_at_time(99), 'a');
    assert_eq!(*anim.get_at_time(100), 'b');
    assert_eq!(*anim.get_at_time(149), 'b');
    assert_eq!(*anim.get_at_time(150), 'd');
    assert_eq!(*anim.get_at_time(175), 'a');
    assert_eq!(*anim.get_at_time(175 * 3 + 120), 'b');
    assert_eq!(anim.frame_index(174), 3);
}

#[test]
fn animation_total_overflow() {
    assert!(Animation::new(vec![((), u32::MAX), ((), 1)]).is_none());
    assert_eq!(Animation::new(vec![((), u32::MAX)]).unwrap().total_length, u32::MAX);
}

#[test]
fn player_spawn_and_death() {
    let mut p = Player::new(Vec2i::new(TILE_SIZE, 4 * TILE_SIZE));
    assert!(p.alive());
    assert_eq!(p.camera_pos, Vec2i::new(TILE_SIZE + HALF_SCREEN_WIDTH, 4 * TILE_SIZE - CAMERA_RISE));
    assert!(p.grounded);
    p.time = 1234;
    p.die();
    assert!(!p.alive());
    assert_eq!(p.player_state, PlayerState::Died);
    assert_eq!(p.time, 0);
}

#[test]
fn player_stands_on_floor() {
    let world = floor_world(&[(0, 5), (1, 5), (2, 5), (3, 5)]);
    let mut state = WorldState::new();
    let mut p = Player::new(Vec2i::new(TILE_SIZE, 4 * TILE_SIZE));
    for _ in 0..10 {
        let r = p.update(16_666, IDLE, &world, &mut state, 500);
        assert_eq!(r, PlayerUpdateResult::Continue);
    }
    assert_eq!(p.pos, Vec2i::new(TILE_SIZE, 4 * TILE_SIZE));
    assert!(p.grounded);
    assert_eq!(p.anim_state, AnimState::Idle);
}

#[test]
fn player_walks_and_jumps() {
    let world = floor_world(&[(0, 5), (1, 5), (2, 5), (3, 5), (4, 5), (5, 5)]);
    let mut state = WorldState::new();
    let mut p = Player::new(Vec2i::new(TILE_SIZE, 4 * TILE_SIZE));
    let right = PlayerInput { horizontal: 1, jump_held: false, jump_pressed: false };
    p.update(16_666, right, &world, &mut state, 500);
    assert!(p.pos.x > TILE_SIZE);
    assert_eq!(p.anim_state, AnimState::Walk);
    assert!(!p.facing_left);
    let jump = PlayerInput { horizontal: 0, jump_held: true, jump_pressed: true };
    p.update(16_666, jump, &world, &mut state, 500);
    assert!(p.velocity.y < 0);
    assert!(p.pos.y < 4 * TILE_SIZE);
    assert!(!p.grounded);
}

#[test]
fn dead_player_restarts_after_animation() {
    let world = floor_world(&[]);
    let mut state = WorldState::new();
    let mut p = Player::new(Vec2i::new(TILE_SIZE, 0));
    p.die();
    let mut results = Vec::new();
    for _ in 0..4 {
        results.push(p.update(100_000, IDLE, &world, &mut state, 300));
    }
    assert_eq!(
        results,
        vec![
            PlayerUpdateResult::Continue,
            PlayerUpdateResult::Continue,
            PlayerUpdateResult::RestartLevel,
            PlayerUpdateResult::RestartLevel
        ]
    );
    assert_eq!(p.anim_state, AnimState::Die);
    assert!(p.velocity.y < 0);
}

#[test]
fn player_dies_on_death_tile() {
    let mut tiles = vec![0i16; 256];
    tiles[3] = 17;
    let mut collision = ChunkLayer::new();
    assert!(collision.insert(Chunk { x: 0, y: 0, tiles }));
    let world = World::new(collision, ChunkLayer::new(), ChunkLayer::new(), ChunkLayer::new());
    let mut state = WorldState::new();
    let mut p = Player::new(Vec2i::new(5325, 0));
    p.grounded = false;
    p.update(1, IDLE, &world, &mut state, 300);
    assert!(!p.alive());
}

#[test]
fn enemy_turns_at_wall() {
    let world = floor_world(&[(0, 3), (1, 3), (2, 3), (3, 3), (0, 2)]);
    let mut e = Enemy::new(Vec2i::new(TILE_SIZE + 10, 2 * TILE_SIZE), EnemyType::Snail);
    assert!(e.facing_left);
    e.update(16_666, &world, &[]);
    assert!(!e.facing_left);
    assert_eq!(e.pos.x, TILE_SIZE);
    assert_eq!(e.velocity.x, 0);
    e.update(16_666, &world, &[]);
    assert!(e.pos.x > TILE_SIZE);
    assert_eq!(EnemyType::from_i16(0), Some(EnemyType::Snail));
    assert_eq!(EnemyType::from_i16(3), None);
    assert_eq!(EnemyType::Snail.speed(), 8 * PX);
}

#[test]
fn enemy_turns_at_ledge() {
    let world = floor_world(&[(2, 3), (3, 3), (4, 3)]);
    let mut e = Enemy::new(Vec2i::new(3 * TILE_SIZE, 2 * TILE_SIZE), EnemyType::Snail);
    let mut turned = false;
    for _ in 0..400 {
        e.update(16_666, &world, &[]);
        if !e.facing_left {
            turned = true;
        }
    }
    assert!(turned);
    assert!(e.pos.x >= TILE_SIZE && e.pos.x <= 5 * TILE_SIZE);
}

#[test]
fn coins_in_reach_are_taken() {
    let mut state = WorldState::new();
    state.coins = vec![(1, 1), (5, 5), (1, 2)];
    let taken = collect_coins(&mut state, Vec2i::new(TILE_SIZE + 3 * PX, TILE_SIZE));
    assert_eq!(taken, 1);
    assert_eq!(state.coins, vec![(5, 5), (1, 2)]);
    assert_eq!(state.taken_coins, 1);
    assert_eq!(collect_coins(&mut state, Vec2i::new(0, 0)), 0);
}

#[test]
fn stomp_and_be_stomped() {
    let world = floor_world(&[(0, 5), (1, 5), (2, 5), (3, 5), (4, 5), (5, 5), (6, 5), (7, 5)]);
    let mut state = WorldState::new();
    state.enemies = vec![Enemy::new(Vec2i::new(5 * TILE_SIZE, 4 * TILE_SIZE), EnemyType::Snail)];
    let mut p = Player::new(Vec2i::new(5 * TILE_SIZE, 4 * TILE_SIZE - 6 * PX));
    p.velocity = Vec2i::new(0, 10 * PX);
    let met = update_enemies(&mut state, &mut p, 16_666, &world);
    assert!(met);
    assert!(state.enemies.is_empty());
    assert_eq!(p.velocity.y, STOMP_BOUNCE);
    assert!(p.alive());

    let mut state = WorldState::new();
    state.enemies = vec![Enemy::new(Vec2i::new(5 * TILE_SIZE, 4 * TILE_SIZE), EnemyType::Snail)];
    let mut p = Player::new(Vec2i::new(5 * TILE_SIZE - 4 * PX, 4 * TILE_SIZE));
    let met = update_enemies(&mut state, &mut p, 16_666, &world);
    assert!(met);
    assert_eq!(state.enemies.len(), 1);
    assert!(!p.alive());
}

#[test]
fn far_enemy_stays_dormant() {
    let world = floor_world(&[]);
    let mut state = WorldState::new();
    state.enemies = vec![Enemy::new(Vec2i::new(200 * TILE_SIZE, 0), EnemyType::Snail)];
    let mut p = Player::new(Vec2i::new(TILE_SIZE, 0));
    let met = update_enemies(&mut state, &mut p, 16_666, &world);
    assert!(!met);
    assert!(!state.enemies[0].loaded);
    assert_eq!(state.enemies[0].pos, Vec2i::new(200 * TILE_SIZE, 0));
}

#[test]
fn tags_split_frames() {
    let frames = vec![('a', 10), ('b', 20), ('c', 30), ('d', 40), ('e', 50)];
    let anims = split_by_tags(frames, &[(0, 1), (3, 4)]).unwrap();
    assert_eq!(anims.len(), 2);
    assert_eq!(anims[0].frames, vec![('a', 10), ('b', 20)]);
    assert_eq!(anims[0].total_length, 30);
    assert_eq!(anims[1].frames, vec![('d', 40), ('e', 50)]);
    assert_eq!(anims[1].total_length, 90);
}

#[test]
fn tags_out_of_order_are_refused() {
    let frames = || vec![('a', 10), ('b', 20), ('c', 30)];
    assert!(split_by_tags(frames(), &[(1, 2), (0, 0)]).is_none());
    assert!(split_by_tags(frames(), &[(0, 1), (1, 2)]).is_none());
    assert!(split_by_tags(frames(), &[(2, 3)]).is_none());
    assert!(split_by_tags(frames(), &[(2, 1)]).is_none());
    assert_eq!(split_by_tags(frames(), &[]).unwrap().len(), 0);
    assert!(split_by_tags(vec![((), u32::MAX), ((), 1)], &[(0, 1)]).is_none());
}

#[test]
fn broken_blocks_are_not_drawn() {
    assert!(!tile_visible(0, (1, 1), &[]));
    assert!(tile_visible(49, (1, 1), &[]));
    assert!(!tile_visible(49, (1, 1), &[(0, 0), (1, 1)]));
    assert!(tile_visible(50, (1, 1), &[(1, 1)]));
}

#[test]
fn airborne_step_exact() {
    let world = floor_world(&[]);
    let mut state = WorldState::new();
    let mut p = Player::new(Vec2i::new(10 * TILE_SIZE, 0));
    p.grounded = false;
    p.velocity = Vec2i::new(100 * PX, 0);
    let r = p.update(10_000, IDLE, &world, &mut state, 500);
    assert_eq!(r, PlayerUpdateResult::Continue);
    // air drag without input: 22.5 per second over 10 ms; gravity 612 px/s^2
    assert_eq!(p.velocity, Vec2i::new(19840, 1566));
    assert_eq!(p.pos, Vec2i::new(10 * TILE_SIZE + 198, 15));
    assert!(!p.grounded);
    assert_eq!(p.time, 10_000);
    assert_eq!(p.camera_pos.x, HALF_SCREEN_WIDTH);
}

#[test]
fn dead_player_drift_exact() {
    let world = floor_world(&[]);
    let mut state = WorldState::new();
    let mut p = Player::new(Vec2i::new(TILE_SIZE, 0));
    p.die();
    p.update(100_000, IDLE, &world, &mut state, 300);
    assert_eq!(p.velocity, Vec2i::new(0, -6554));
    assert_eq!(p.pos, Vec2i::new(TILE_SIZE, -656));
    assert_eq!(p.time, 100_000);
}

#[test]
fn enemy_step_exact() {
    let world = floor_world(&[(3, 3), (4, 3), (5, 3), (6, 3)]);
    let mut e = Enemy::new(Vec2i::new(5 * TILE_SIZE, 2 * TILE_SIZE), EnemyType::Snail);
    e.update(100_000, &world, &[]);
    // walks left at 8 px/s (-204.8 sub-pixels, rounded down); the floor stops gravity
    assert_eq!(e.pos, Vec2i::new(5 * TILE_SIZE - 205, 2 * TILE_SIZE));
    assert_eq!(e.velocity, Vec2i::new(-8 * PX, 0));
    assert!(e.facing_left);
    assert_eq!(e.time, 100_000);
}

#[test]
fn slow_frames_are_capped() {
    assert_eq!(capped_step(5_000), 5_000);
    assert_eq!(capped_step(16_665), 16_665);
    assert_eq!(capped_step(16_666), MAX_STEP_MICROS);
    assert_eq!(capped_step(250_000), 16_666);
}
