use vstd::prelude::*;

use crate::enemy::Enemy;
use crate::physics::is_broken;
use crate::tiles::BREAKABLE_TILE;
use crate::player::{Player, PlayerState, HALF_SCREEN_WIDTH};
use crate::units::{clamp, Vec2i};
use crate::world::{tile_origin, tile_position, World, WorldState};

verus! {

/// Longest time step simulated at once (one sixtieth of a second, in
/// microseconds): slow frames are slowed down rather than let bodies skip
/// through tiles.
pub const MAX_STEP_MICROS: u32 = 16_666;

/// The time step to simulate for a frame that took `frame_micros`.
pub fn capped_step(frame_micros: u32) -> (r: u32)
    ensures
        r == (if frame_micros < MAX_STEP_MICROS {
            frame_micros
        } else {
            MAX_STEP_MICROS
        }),
{
    if frame_micros < MAX_STEP_MICROS {
        frame_micros
    } else {
        MAX_STEP_MICROS
    }
}

/// Square of the contact distance (8 pixels) in sub-pixel units.
pub const CONTACT_RADIUS_SQ: i128 = 4_194_304;

/// Upward velocity after stomping an enemy: 150 pixels per second.
pub const STOMP_BOUNCE: i32 = -38400;

/// Two points are close enough to touch.
pub open spec fn in_contact(a: Vec2i, b: Vec2i) -> bool {
    (a.x - b.x) * (a.x - b.x) + (a.y - b.y) * (a.y - b.y) < CONTACT_RADIUS_SQ
}

fn contact(a: Vec2i, b: Vec2i) -> (r: bool)
    ensures
        r == in_contact(a, b),
{
    let dx: i128 = a.x as i128 - b.x as i128;
    let dy: i128 = a.y as i128 - b.y as i128;
    assert(0 <= dx * dx <= 0x1_0000_0000 * 0x1_0000_0000) by (nonlinear_arith)
        requires
            -0x1_0000_0000 <= dx <= 0x1_0000_0000,
    ;
    assert(0 <= dy * dy <= 0x1_0000_0000 * 0x1_0000_0000) by (nonlinear_arith)
        requires
            -0x1_0000_0000 <= dy <= 0x1_0000_0000,
    ;
    dx * dx + dy * dy < CONTACT_RADIUS_SQ
}

/// The enemy wakes once it stands right of the level's left edge and left
/// of the camera's far edge.
pub open spec fn wakes(e: Enemy, camera_x: int) -> bool {
    0 <= e.pos.x < camera_x + HALF_SCREEN_WIDTH
}

/// One enemy's turn: it may wake, moves if awake, and may meet the player
/// (only the first meeting of a frame counts). Meeting it from above or
/// while rising kills the player; landing on it squashes it (it is not
/// kept) and bounces the player. Yields the enemy, the player, whether a
/// meeting has happened, and whether the enemy is kept.
pub open spec fn enemy_turn(
    e: Enemy,
    p: Player,
    met: bool,
    layer: Map<(int, int), Seq<i16>>,
    broken: Seq<(i16, i16)>,
    dt: int,
) -> (Enemy, Player, bool, bool) {
    let woken = Enemy { loaded: e.loaded || wakes(e, p.camera_pos.x as int), ..e };
    if woken.loaded {
        let moved = woken.stepped(layer, broken, dt);
        if !met && p.player_state == PlayerState::Active && in_contact(p.pos, moved.pos) {
            if p.pos.y >= moved.pos.y || p.velocity.y < 0 {
                (moved, Player { player_state: PlayerState::Died, time: 0, ..p }, true, true)
            } else {
                (
                    moved,
                    Player { velocity: Vec2i { y: STOMP_BOUNCE, ..p.velocity }, ..p },
                    true,
                    false,
                )
            }
        } else {
            (moved, p, met, true)
        }
    } else {
        (woken, p, met, true)
    }
}

/// All enemies' turns in order: the enemies kept, the player, and whether a
/// meeting happened.
pub open spec fn enemies_turns(
    enemies: Seq<Enemy>,
    p: Player,
    layer: Map<(int, int), Seq<i16>>,
    broken: Seq<(i16, i16)>,
    dt: int,
) -> (Seq<Enemy>, Player, bool)
    decreases enemies.len(),
{
    if enemies.len() == 0 {
        (Seq::empty(), p, false)
    } else {
        let prev = enemies_turns(enemies.drop_last(), p, layer, broken, dt);
        let t = enemy_turn(enemies.last(), prev.1, prev.2, layer, broken, dt);
        (
            if t.3 {
                prev.0.push(t.0)
            } else {
                prev.0
            },
            t.1,
            t.2,
        )
    }
}

/// Runs every enemy's turn against the player; returns whether the player
/// met an enemy (the stomp sound plays then).
pub fn update_enemies(
    world_state: &mut WorldState,
    player: &mut Player,
    delta_time: u32,
    world: &World,
) -> (met: bool)
    ensures
        ({
            let t = enemies_turns(
                old(world_state).enemies@,
                *old(player),
                world.collision@,
                old(world_state).broken_tiles@,
                delta_time as int,
            );
            &&& final(world_state).enemies@ == t.0
            &&& *final(player) == t.1
            &&& met == t.2
        }),
        final(world_state).broken_tiles@ == old(world_state).broken_tiles@,
        final(world_state).coins@ == old(world_state).coins@,
        final(world_state).taken_coins == old(world_state).taken_coins,
{
    let ghost all = world_state.enemies@;
    let ghost p0 = *player;
    let mut kept: Vec<Enemy> = Vec::new();
    let mut met = false;
    let mut i: usize = 0;
    while i < world_state.enemies.len()
        invariant
            0 <= i <= all.len(),
            world_state.enemies@ == all,
            world_state.broken_tiles@ == old(world_state).broken_tiles@,
            world_state.coins@ == old(world_state).coins@,
            world_state.taken_coins == old(world_state).taken_coins,
            all == old(world_state).enemies@,
            p0 == *old(player),
            ({
                let t = enemies_turns(
                    all.take(i as int),
                    p0,
                    world.collision@,
                    world_state.broken_tiles@,
                    delta_time as int,
                );
                kept@ == t.0 && *player == t.1 && met == t.2
            }),
        decreases all.len() - i,
    {
        let mut e = world_state.enemies[i];
        let ghost t = enemy_turn(
            e,
            *player,
            met,
            world.collision@,
            world_state.broken_tiles@,
            delta_time as int,
        );
        assert(all.take(i + 1).drop_last() =~= all.take(i as int));
        if !e.loaded && 0 <= e.pos.x && (e.pos.x as i64) < player.camera_pos.x as i64
            + HALF_SCREEN_WIDTH as i64 {
            e.loaded = true;
        }
        let mut keep = true;
        if e.loaded {
            e.update(delta_time, world, world_state.broken_tiles.as_slice());
            if !met && player.alive() && contact(player.pos, e.pos) {
                met = true;
                if player.pos.y >= e.pos.y || player.velocity.y < 0 {
                    player.die();
                } else {
                    player.velocity.y = STOMP_BOUNCE;
                    keep = false;
                }
            }
        }
        if keep {
            kept.push(e);
        }
        i += 1;
    }
    assert(all.take(all.len() as int) =~= all);
    world_state.enemies = kept;
    met
}

/// A coin at tile `c` is out of the player's reach at `pos`.
pub open spec fn coin_stays(pos: Vec2i, c: (i16, i16)) -> bool {
    !in_contact(pos, tile_origin(c))
}

/// Takes every coin the player at `pos` touches; returns how many.
pub fn collect_coins(world_state: &mut WorldState, pos: Vec2i) -> (taken: usize)
    ensures
        final(world_state).coins@ == old(world_state).coins@.filter(|c| coin_stays(pos, c)),
        taken == old(world_state).coins@.len() - final(world_state).coins@.len(),
        final(world_state).taken_coins == clamp(
            old(world_state).taken_coins + taken,
            0,
            usize::MAX as int,
        ),
        final(world_state).enemies@ == old(world_state).enemies@,
        final(world_state).broken_tiles@ == old(world_state).broken_tiles@,
{
    let ghost all = world_state.coins@;
    let ghost pred = |c: (i16, i16)| coin_stays(pos, c);
    let mut kept: Vec<(i16, i16)> = Vec::new();
    let mut i: usize = 0;
    while i < world_state.coins.len()
        invariant
            0 <= i <= all.len(),
            world_state.coins@ == all,
            all == old(world_state).coins@,
            world_state.enemies@ == old(world_state).enemies@,
            world_state.broken_tiles@ == old(world_state).broken_tiles@,
            world_state.taken_coins == old(world_state).taken_coins,
            pred == (|c: (i16, i16)| coin_stays(pos, c)),
            kept@ == all.take(i as int).filter(pred),
            kept@.len() <= i,
        decreases all.len() - i,
    {
        let c = world_state.coins[i];
        assert(all.take(i + 1).drop_last() =~= all.take(i as int));
        let origin = tile_position(c);
        assert(all.take(i + 1).last() == c);
        assert(pred(c) == coin_stays(pos, c));
        reveal_with_fuel(Seq::filter, 1);
        assert(all.take(i + 1).filter(pred) == (if pred(c) {
            all.take(i as int).filter(pred).push(c)
        } else {
            all.take(i as int).filter(pred)
        }));
        if !contact(pos, origin) {
            kept.push(c);
        }
        i += 1;
    }
    assert(all.take(all.len() as int) =~= all);
    let taken = world_state.coins.len() - kept.len();
    world_state.coins = kept;
    world_state.taken_coins = if world_state.taken_coins > usize::MAX - taken {
        usize::MAX
    } else {
        world_state.taken_coins + taken
    };
    taken
}

/// A tile at world tile `at` is drawn: it is not empty, and not a
/// breakable block that has been broken.
pub fn tile_visible(tile: i16, at: (i16, i16), broken_tiles: &[(i16, i16)]) -> (r: bool)
    ensures
        r == (tile != 0 && !(tile == BREAKABLE_TILE && broken_tiles@.contains(at))),
{
    tile != 0 && !(tile == BREAKABLE_TILE && is_broken(broken_tiles, at))
}

} // verus!
