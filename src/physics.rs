use vstd::prelude::*;

use crate::chunk::{get_tile, tile_in_layer, ChunkLayer};
use crate::tiles::{flag_of, get_tile_flag, TileFlag, BOUNCE_PAD_TILE, BREAKABLE_TILE};
use crate::units::{
    clamp_i16, clamp_i32, displacement, div_away, div_ceil, div_floor, div_trunc, saturate_i16,
    saturate_i32, step_displacement, tile_away, tile_ceil, tile_floor, tile_trunc, Vec2i,
    TILE_SIZE,
};
use crate::world::World;

verus! {

/// Vertical velocity that a bounce pad gives: 270 pixels per second upward.
pub const BOUNCE_VELOCITY: i32 = -69120;

/// Square of the touch radius (4 pixels) in sub-pixel units.
pub const TOUCH_RADIUS_SQ: i64 = 1_048_576;

/// The touch radius (4 pixels) in sub-pixel units.
pub const TOUCH_RADIUS: i64 = 1024;

/// A sampled cell: an unclamped tile coordinate pair.
pub type Cell = (int, int);

/// The key under which a cell is looked up and recorded as broken.
pub open spec fn cell_key(c: Cell) -> (i16, i16) {
    (clamp_i16(c.0) as i16, clamp_i16(c.1) as i16)
}

/// The tile id that collision sees at a cell.
pub open spec fn cell_id(layer: Map<(int, int), Seq<i16>>, c: Cell) -> int {
    tile_in_layer(layer, clamp_i16(c.0), clamp_i16(c.1))
}

/// A breakable block at this cell has been broken and lets bodies through.
pub open spec fn broken_at(layer: Map<(int, int), Seq<i16>>, broken: Seq<(i16, i16)>, c: Cell) -> bool {
    cell_id(layer, c) == BREAKABLE_TILE && broken.contains(cell_key(c))
}

/// The cell stops a body on either axis.
pub open spec fn solid_at(layer: Map<(int, int), Seq<i16>>, broken: Seq<(i16, i16)>, c: Cell) -> bool {
    flag_of(cell_id(layer, c)) == TileFlag::Collision && !broken_at(layer, broken, c)
}

/// The `i`-th vertical sample stops a body with vertical velocity `vy`:
/// solids always, one-way platforms only on the two leading cells of a fall.
pub open spec fn blocks_vertically(
    layer: Map<(int, int), Seq<i16>>,
    broken: Seq<(i16, i16)>,
    vy: int,
    i: int,
    c: Cell,
) -> bool {
    solid_at(layer, broken, c) || (i < 2 && vy > 0 && flag_of(cell_id(layer, c))
        == TileFlag::OneWayCollision)
}

/// Cells sampled by the vertical pass: the body's current column, rounded
/// both ways, against the candidate row, rounded both ways.
pub open spec fn vertical_cells(px: int, cy: int) -> Seq<Cell> {
    let t = TILE_SIZE as int;
    seq![
        (div_trunc(px, t), div_away(cy, t)),
        (div_away(px, t), div_away(cy, t)),
        (div_trunc(px, t), div_trunc(cy, t)),
        (div_away(px, t), div_trunc(cy, t)),
    ]
}

/// Cells sampled by the horizontal pass around the point `(nx, ny)`.
pub open spec fn horizontal_cells(nx: int, ny: int) -> Seq<Cell> {
    let t = TILE_SIZE as int;
    seq![
        (div_trunc(nx, t), div_away(ny, t)),
        (div_away(nx, t), div_away(ny, t)),
        (div_away(nx, t), div_trunc(ny, t)),
        (div_trunc(nx, t), div_trunc(ny, t)),
    ]
}

/// Index of the first vertical sample that blocks, or 4.
pub open spec fn first_vertical_hit(
    layer: Map<(int, int), Seq<i16>>,
    broken: Seq<(i16, i16)>,
    vy: int,
    cells: Seq<Cell>,
) -> int {
    if blocks_vertically(layer, broken, vy, 0, cells[0]) {
        0
    } else if blocks_vertically(layer, broken, vy, 1, cells[1]) {
        1
    } else if blocks_vertically(layer, broken, vy, 2, cells[2]) {
        2
    } else if blocks_vertically(layer, broken, vy, 3, cells[3]) {
        3
    } else {
        4
    }
}

/// Index of the first horizontal sample that is solid, or 4.
pub open spec fn first_solid(
    layer: Map<(int, int), Seq<i16>>,
    broken: Seq<(i16, i16)>,
    cells: Seq<Cell>,
) -> int {
    if solid_at(layer, broken, cells[0]) {
        0
    } else if solid_at(layer, broken, cells[1]) {
        1
    } else if solid_at(layer, broken, cells[2]) {
        2
    } else if solid_at(layer, broken, cells[3]) {
        3
    } else {
        4
    }
}

/// The point `(nx, ny)` lies within the touch radius of the cell's anchor.
pub open spec fn is_near(nx: int, ny: int, c: Cell) -> bool {
    let dx = nx - c.0 * TILE_SIZE;
    let dy = ny - c.1 * TILE_SIZE;
    dx * dx + dy * dy < TOUCH_RADIUS_SQ
}

/// One of the first `end` horizontal samples is a death tile right of the
/// level's first column and within reach.
pub open spec fn touches_death(
    layer: Map<(int, int), Seq<i16>>,
    cells: Seq<Cell>,
    nx: int,
    ny: int,
    end: int,
) -> bool {
    exists|j: int|
        #![trigger cells[j]]
        0 <= j < end && cells[j].0 > 0 && is_near(nx, ny, cells[j]) && flag_of(
            cell_id(layer, cells[j]),
        ) == TileFlag::Death
}

/// One of the first `end` horizontal samples is a bounce pad within reach.
pub open spec fn touches_bounce_pad(
    layer: Map<(int, int), Seq<i16>>,
    cells: Seq<Cell>,
    nx: int,
    ny: int,
    end: int,
) -> bool {
    exists|j: int|
        #![trigger cells[j]]
        0 <= j < end && cell_id(layer, cells[j]) == BOUNCE_PAD_TILE && is_near(nx, ny, cells[j])
}

/// Where a blocked body ends on one axis: the tile boundary of its current
/// tile, behind it when moving toward negative, ahead of it otherwise.
pub open spec fn snap_to_tile(p: int, v: int) -> int {
    let t = TILE_SIZE as int;
    if v < 0 {
        clamp_i32(div_floor(p, t) * t)
    } else {
        clamp_i32(div_ceil(p, t) * t)
    }
}

/// Where a velocity carries a coordinate over `dt` microseconds, held to
/// the coordinate range.
pub open spec fn candidate(p: int, v: int, dt: int) -> int {
    clamp_i32(p + displacement(v, dt))
}

/// What one resolver step yields: the new position, the new velocity,
/// grounded, touched a death tile, and the breakable block struck from below.
pub open spec fn resolution(
    layer: Map<(int, int), Seq<i16>>,
    broken: Seq<(i16, i16)>,
    pos: Vec2i,
    vel: Vec2i,
    dt: int,
) -> (Vec2i, Vec2i, bool, bool, Option<(i16, i16)>) {
    let cx = candidate(pos.x as int, vel.x as int, dt);
    let cy = candidate(pos.y as int, vel.y as int, dt);
    let vc = vertical_cells(pos.x as int, cy);
    let vh = first_vertical_hit(layer, broken, vel.y as int, vc);
    let ny = if vh < 4 {
        snap_to_tile(pos.y as int, vel.y as int)
    } else {
        cy
    };
    let grounded = vh < 4 && vel.y >= 0;
    let broke = if vh < 4 && vel.y < 0 && cell_id(layer, vc[vh]) == BREAKABLE_TILE {
        Some(cell_key(vc[vh]))
    } else {
        None
    };
    let hc = horizontal_cells(cx, ny);
    let hh = first_solid(layer, broken, hc);
    let end = if hh < 4 {
        hh + 1
    } else {
        4
    };
    let nx = if hh < 4 {
        snap_to_tile(pos.x as int, vel.x as int)
    } else {
        cx
    };
    let died = touches_death(layer, hc, cx, ny, end);
    let bounced = vel.y > 0 && touches_bounce_pad(layer, hc, cx, ny, end);
    let new_vel = Vec2i {
        x: if hh < 4 {
            0
        } else {
            vel.x
        },
        y: if bounced {
            BOUNCE_VELOCITY
        } else if vh < 4 {
            0
        } else {
            vel.y
        },
    };
    (Vec2i { x: nx as i32, y: ny as i32 }, new_vel, grounded, died, broke)
}

pub(crate) fn is_broken(broken_tiles: &[(i16, i16)], key: (i16, i16)) -> (r: bool)
    ensures
        r == broken_tiles@.contains(key),
{
    let mut i: usize = 0;
    while i < broken_tiles.len()
        invariant
            0 <= i <= broken_tiles@.len(),
            forall|j: int| 0 <= j < i ==> broken_tiles@[j] != key,
        decreases broken_tiles@.len() - i,
    {
        let b = broken_tiles[i];
        if b.0 == key.0 && b.1 == key.1 {
            assert(broken_tiles@[i as int] == key);
            return true;
        }
        i += 1;
    }
    false
}

/// Looks up the tile at a sampled cell; returns its id and its key.
fn sample(collision: &ChunkLayer, tx: i32, ty: i32) -> (r: (i16, (i16, i16)))
    ensures
        r.0 == cell_id(collision@, (tx as int, ty as int)),
        r.1 == cell_key((tx as int, ty as int)),
{
    let kx = saturate_i16(tx);
    let ky = saturate_i16(ty);
    (get_tile(collision, kx, ky), (kx, ky))
}

fn solid_exec(collision: &ChunkLayer, broken_tiles: &[(i16, i16)], tile: i16, key: (i16, i16)) -> (r: bool)
    ensures
        r == (flag_of(tile as int) == TileFlag::Collision && !(tile == BREAKABLE_TILE
            && broken_tiles@.contains(key))),
{
    get_tile_flag(tile).is_collision() && !(tile == BREAKABLE_TILE && is_broken(broken_tiles, key))
}

fn near(n: Vec2i, tx: i32, ty: i32) -> (r: bool)
    requires
        -0x10_0000 <= tx <= 0x10_0000,
        -0x10_0000 <= ty <= 0x10_0000,
    ensures
        r == is_near(n.x as int, n.y as int, (tx as int, ty as int)),
{
    let dx: i64 = n.x as i64 - tx as i64 * 2048;
    let dy: i64 = n.y as i64 - ty as i64 * 2048;
    if dx <= -TOUCH_RADIUS || dx >= TOUCH_RADIUS || dy <= -TOUCH_RADIUS || dy >= TOUCH_RADIUS {
        assert(dx * dx + dy * dy >= 1_048_576) by (nonlinear_arith)
            requires
                dx <= -1024 || dx >= 1024 || dy <= -1024 || dy >= 1024,
        ;
        return false;
    }
    assert(0 <= dx * dx <= 1_048_576 && 0 <= dy * dy <= 1_048_576) by (nonlinear_arith)
        requires
            -1024 < dx < 1024,
            -1024 < dy < 1024,
    ;
    dx * dx + dy * dy < TOUCH_RADIUS_SQ
}

/// The four sampled cells as a sequence.
pub open spec fn cell_seq(cells: [(i32, i32); 4]) -> Seq<Cell> {
    seq![
        (cells[0].0 as int, cells[0].1 as int),
        (cells[1].0 as int, cells[1].1 as int),
        (cells[2].0 as int, cells[2].1 as int),
        (cells[3].0 as int, cells[3].1 as int),
    ]
}

fn vertical_hit(
    collision: &ChunkLayer,
    broken_tiles: &[(i16, i16)],
    vy: i32,
    cells: &[(i32, i32); 4],
) -> (r: usize)
    ensures
        r == first_vertical_hit(collision@, broken_tiles@, vy as int, cell_seq(*cells)),
{
    let mut i: usize = 0;
    while i < 4
        invariant
            0 <= i <= 4,
            forall|j: int|
                0 <= j < i ==> !blocks_vertically(
                    collision@,
                    broken_tiles@,
                    vy as int,
                    j,
                    #[trigger] cell_seq(*cells)[j],
                ),
        decreases 4 - i,
    {
        let (tx, ty) = cells[i];
        assert(cell_seq(*cells)[i as int] == (tx as int, ty as int));
        let (tile, key) = sample(collision, tx, ty);
        let flag = get_tile_flag(tile);
        if solid_exec(collision, broken_tiles, tile, key) || (i < 2 && vy > 0 && flag.is_one_way()) {
            return i;
        }
        i += 1;
    }
    4
}

/// Number of horizontal samples that the pass looks at before it stops.
pub open spec fn scanned(hit: int) -> int {
    if hit < 4 {
        hit + 1
    } else {
        4
    }
}

pub open spec fn cells_bounded(cells: [(i32, i32); 4]) -> bool {
    forall|j: int|
        0 <= j < 4 ==> -0x10_0000 <= #[trigger] cells[j].0 <= 0x10_0000 && -0x10_0000
            <= cells[j].1 <= 0x10_0000
}

/// Walks the horizontal samples up to the first solid one, noting death
/// tiles and bounce pads within reach on the way.
fn horizontal_scan(
    collision: &ChunkLayer,
    broken_tiles: &[(i16, i16)],
    n: Vec2i,
    cells: &[(i32, i32); 4],
) -> (r: (usize, bool, bool))
    requires
        cells_bounded(*cells),
    ensures
        r.0 == first_solid(collision@, broken_tiles@, cell_seq(*cells)),
        r.1 == touches_death(collision@, cell_seq(*cells), n.x as int, n.y as int, scanned(r.0 as int)),
        r.2 == touches_bounce_pad(
            collision@,
            cell_seq(*cells),
            n.x as int,
            n.y as int,
            scanned(r.0 as int),
        ),
{
    let ghost cs = cell_seq(*cells);
    let mut touched = false;
    let mut bounce = false;
    let mut i: usize = 0;
    while i < 4
        invariant
            0 <= i <= 4,
            cs == cell_seq(*cells),
            cells_bounded(*cells),
            forall|j: int|
                0 <= j < i ==> !solid_at(collision@, broken_tiles@, #[trigger] cell_seq(*cells)[j]),
            touched == touches_death(collision@, cs, n.x as int, n.y as int, i as int),
            bounce == touches_bounce_pad(collision@, cs, n.x as int, n.y as int, i as int),
        decreases 4 - i,
    {
        let (tx, ty) = cells[i];
        assert(cs[i as int] == (tx as int, ty as int));
        let (tile, key) = sample(collision, tx, ty);
        let flag = get_tile_flag(tile);
        let close = near(n, tx, ty);
        if !touched && tx > 0 && close {
            touched = flag.is_death();
        }
        if tile == BOUNCE_PAD_TILE && close {
            bounce = true;
        }
        proof {
            let lay = collision@;
            let (nx, ny) = (n.x as int, n.y as int);
            if touched {
                if !touches_death(lay, cs, nx, ny, i as int) {
                    assert(cs[i as int].0 > 0 && is_near(nx, ny, cs[i as int]) && flag_of(
                        cell_id(lay, cs[i as int]),
                    ) == TileFlag::Death);
                }
            }
            if touches_death(lay, cs, nx, ny, i + 1) {
                let j = choose|j: int|
                    #![trigger cs[j]]
                    0 <= j < i + 1 && cs[j].0 > 0 && is_near(nx, ny, cs[j]) && flag_of(
                        cell_id(lay, cs[j]),
                    ) == TileFlag::Death;
                if j == i {
                } else {
                    assert(touches_death(lay, cs, nx, ny, i as int));
                }
            }
            if bounce {
                if !touches_bounce_pad(lay, cs, nx, ny, i as int) {
                    assert(cell_id(lay, cs[i as int]) == BOUNCE_PAD_TILE && is_near(
                        nx,
                        ny,
                        cs[i as int],
                    ));
                }
            }
            if touches_bounce_pad(lay, cs, nx, ny, i + 1) {
                let j = choose|j: int|
                    #![trigger cs[j]]
                    0 <= j < i + 1 && cell_id(lay, cs[j]) == BOUNCE_PAD_TILE && is_near(
                        nx,
                        ny,
                        cs[j],
                    );
                if j == i {
                } else {
                    assert(touches_bounce_pad(lay, cs, nx, ny, i as int));
                }
            }
        }
        if solid_exec(collision, broken_tiles, tile, key) {
            return (i, touched, bounce);
        }
        i += 1;
    }
    (4, touched, bounce)
}

fn snap(p: i32, v: i32) -> (r: i32)
    ensures
        r == snap_to_tile(p as int, v as int),
{
    if v < 0 {
        saturate_i32(tile_floor(p) as i64 * 2048)
    } else {
        saturate_i32(tile_ceil(p) as i64 * 2048)
    }
}

/// One physics step for a body: moves it by `velocity` over `delta_time`
/// microseconds against the world's collision layer, vertical axis first.
/// Returns the new position, whether the body landed, whether it touched a
/// death tile, and the breakable block it struck from below, if any.
/// `velocity` is corrected in place.
pub fn update_physicsbody(
    pos: Vec2i,
    velocity: &mut Vec2i,
    delta_time: u32,
    world: &World,
    broken_tiles: &[(i16, i16)],
) -> (r: (Vec2i, bool, bool, Option<(i16, i16)>))
    ensures
        (r.0, *final(velocity), r.1, r.2, r.3) == resolution(
            world.collision@,
            broken_tiles@,
            pos,
            *old(velocity),
            delta_time as int,
        ),
{
    let start_velocity = *velocity;
    let cand_x = saturate_i32(pos.x as i64 + step_displacement(velocity.x, delta_time));
    let cand_y = saturate_i32(pos.y as i64 + step_displacement(velocity.y, delta_time));
    let mut new = Vec2i { x: cand_x, y: cand_y };
    let mut grounded = false;
    let mut broke_block: Option<(i16, i16)> = None;

    let tiles_y: [(i32, i32); 4] = [
        (tile_trunc(pos.x), tile_away(cand_y)),
        (tile_away(pos.x), tile_away(cand_y)),
        (tile_trunc(pos.x), tile_trunc(cand_y)),
        (tile_away(pos.x), tile_trunc(cand_y)),
    ];
    assert(cell_seq(tiles_y) =~= vertical_cells(pos.x as int, cand_y as int));
    let hit = vertical_hit(&world.collision, broken_tiles, velocity.y, &tiles_y);
    if hit < 4 {
        let (tx, ty) = tiles_y[hit];
        let (tile, key) = sample(&world.collision, tx, ty);
        if velocity.y < 0 {
            if tile == BREAKABLE_TILE {
                broke_block = Some(key);
            }
        } else {
            grounded = true;
        }
        new.y = snap(pos.y, velocity.y);
        velocity.y = 0;
    }

    let tiles_x: [(i32, i32); 4] = [
        (tile_trunc(new.x), tile_away(new.y)),
        (tile_away(new.x), tile_away(new.y)),
        (tile_away(new.x), tile_trunc(new.y)),
        (tile_trunc(new.x), tile_trunc(new.y)),
    ];
    assert(cell_seq(tiles_x) =~= horizontal_cells(new.x as int, new.y as int));
    let (hit_x, touched_death_tile, on_bounce_pad) = horizontal_scan(
        &world.collision,
        broken_tiles,
        new,
        &tiles_x,
    );
    if on_bounce_pad && start_velocity.y > 0 {
        velocity.y = BOUNCE_VELOCITY;
    }
    if hit_x < 4 {
        new.x = snap(pos.x, velocity.x);
        velocity.x = 0;
    }
    (new, grounded, touched_death_tile, broke_block)
}

/// A one-way platform never stops a body that is not falling. A body moving
/// up whose vertical samples hold no solid tile, one-way platforms or not,
/// reaches its candidate height with its vertical velocity kept.
/// A falling body whose leading samples hold a one-way platform is stopped
/// at the tile boundary and lands.
pub proof fn lemma_one_way_pass_through(
    layer: Map<(int, int), Seq<i16>>,
    broken: Seq<(i16, i16)>,
    pos: Vec2i,
    vel: Vec2i,
    dt: int,
)
    ensures
        forall|i: int, c: Cell|
            vel.y <= 0 && flag_of(cell_id(layer, c)) == TileFlag::OneWayCollision
                ==> !#[trigger] blocks_vertically(layer, broken, vel.y as int, i, c),
        ({
            let vc = vertical_cells(pos.x as int, candidate(pos.y as int, vel.y as int, dt));
            let r = resolution(layer, broken, pos, vel, dt);
            vel.y < 0 && (forall|j: int| 0 <= j < 4 ==> !solid_at(layer, broken, #[trigger] vc[j]))
                ==> r.0.y == candidate(pos.y as int, vel.y as int, dt) && r.1.y == vel.y && !r.2
        }),
        ({
            let vc = vertical_cells(pos.x as int, candidate(pos.y as int, vel.y as int, dt));
            let r = resolution(layer, broken, pos, vel, dt);
            vel.y > 0 && (flag_of(cell_id(layer, vc[0])) == TileFlag::OneWayCollision || flag_of(
                cell_id(layer, vc[1]),
            ) == TileFlag::OneWayCollision) ==> r.0.y == snap_to_tile(pos.y as int, vel.y as int)
                && r.2
        }),
{
    let vc = vertical_cells(pos.x as int, candidate(pos.y as int, vel.y as int, dt));
    if vel.y < 0 && (forall|j: int| 0 <= j < 4 ==> !solid_at(layer, broken, #[trigger] vc[j])) {
        assert(!solid_at(layer, broken, vc[0]));
        assert(!solid_at(layer, broken, vc[1]));
        assert(!solid_at(layer, broken, vc[2]));
        assert(!solid_at(layer, broken, vc[3]));
    }
}

/// A breakable block recorded as broken lets bodies through on both axes,
/// whatever their velocity; with nothing recorded (a fresh level state) the
/// same block is solid again.
pub proof fn lemma_breakable_permanence(
    layer: Map<(int, int), Seq<i16>>,
    broken: Seq<(i16, i16)>,
    c: Cell,
    vy: int,
    i: int,
)
    requires
        cell_id(layer, c) == BREAKABLE_TILE,
    ensures
        broken.contains(cell_key(c)) ==> !solid_at(layer, broken, c) && !blocks_vertically(
            layer,
            broken,
            vy,
            i,
            c,
        ),
        solid_at(layer, Seq::<(i16, i16)>::empty(), c),
        blocks_vertically(layer, Seq::<(i16, i16)>::empty(), vy, i, c),
{
}

/// A body that starts at or right of the level's left edge never ends a
/// step left of it, whatever its velocity and time step: everything left of
/// the edge is a wall.
pub proof fn lemma_left_wall(
    layer: Map<(int, int), Seq<i16>>,
    broken: Seq<(i16, i16)>,
    pos: Vec2i,
    vel: Vec2i,
    dt: int,
)
    requires
        pos.x >= 0,
        dt >= 0,
    ensures
        resolution(layer, broken, pos, vel, dt).0.x >= 0,
{
    let t = TILE_SIZE as int;
    let cx = candidate(pos.x as int, vel.x as int, dt);
    let cy = candidate(pos.y as int, vel.y as int, dt);
    let vc = vertical_cells(pos.x as int, cy);
    let vh = first_vertical_hit(layer, broken, vel.y as int, vc);
    let ny = if vh < 4 {
        snap_to_tile(pos.y as int, vel.y as int)
    } else {
        cy
    };
    let hc = horizontal_cells(cx, ny);
    if cx < 0 {
        assert(div_away(cx, t) <= -1);
        assert(cell_id(layer, hc[1]) == crate::tiles::WALL_TILE);
        assert(solid_at(layer, broken, hc[1]));
    }
}

} // verus!
