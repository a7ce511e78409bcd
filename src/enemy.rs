use vstd::prelude::*;

use crate::chunk::{is_authored, origin_of, stored_tile};
use crate::physics::{resolution, update_physicsbody};
use crate::tiles::{flag_of, get_tile_flag, TileFlag};
use crate::units::{
    add_saturating, clamp, clamp_i16, clamp_i32, displacement, div_round, saturate_i16,
    step_displacement, tile_round, Vec2i, GRAVITY, TILE_SIZE,
};
use crate::world::World;

verus! {

/// The kinds of enemy that a level can spawn.
#[derive(Clone, Copy, Debug, PartialEq, Eq, Structural)]
pub enum EnemyType {
    Snail,
}

impl EnemyType {
    /// The enemy kind with this number, if there is one.
    pub fn from_i16(n: i16) -> (r: Option<EnemyType>)
        ensures
            r == (if n == 0 {
                Some(EnemyType::Snail)
            } else {
                None
            }),
    {
        if n == 0 {
            Some(EnemyType::Snail)
        } else {
            None
        }
    }

    /// The number of this kind, as used to pick its animation.
    pub fn to_usize(&self) -> (r: usize)
        ensures
            *self == EnemyType::Snail ==> r == 0,
    {
        match self {
            EnemyType::Snail => 0,
        }
    }

    pub open spec fn spec_speed(self) -> int {
        match self {
            EnemyType::Snail => 2048,
        }
    }

    /// Walking speed in sub-pixel units per second.
    pub fn speed(&self) -> (r: i32)
        ensures
            r == self.spec_speed(),
    {
        match self {
            EnemyType::Snail => 2048,
        }
    }
}

/// An enemy walking back and forth; dormant until the camera reaches it.
#[derive(Clone, Copy, Debug)]
pub struct Enemy {
    pub pos: Vec2i,
    pub velocity: Vec2i,
    pub ty: EnemyType,
    pub facing_left: bool,
    /// Time alive, in microseconds.
    pub time: u64,
    pub loaded: bool,
}

impl Enemy {
    pub open spec fn fresh(pos: Vec2i, ty: EnemyType) -> Enemy {
        Enemy {
            pos,
            velocity: Vec2i { x: 0, y: 0 },
            ty,
            facing_left: true,
            time: 0,
            loaded: false,
        }
    }

    /// A dormant enemy at `pos`, at rest and facing left.
    pub fn new(pos: Vec2i, ty: EnemyType) -> (r: Enemy)
        ensures
            r == Enemy::fresh(pos, ty),
    {
        Enemy { pos, ty, facing_left: true, time: 0, velocity: Vec2i::zero(), loaded: false }
    }
}

/// The tile diagonally below and ahead of a walker at `pos`.
pub open spec fn tile_ahead(pos: Vec2i, facing_left: bool) -> (int, int) {
    let t = TILE_SIZE as int;
    let dx = if facing_left {
        -t
    } else {
        t
    };
    (clamp_i16(div_round(pos.x + dx, t)), clamp_i16(div_round(pos.y + t, t)))
}

/// A walker at `pos` facing this way is at a ledge: the tile ahead of it,
/// right of the left edge, lies in an authored chunk and holds nothing solid.
pub open spec fn at_ledge(layer: Map<(int, int), Seq<i16>>, pos: Vec2i, facing_left: bool) -> bool {
    let a = tile_ahead(pos, facing_left);
    a.0 > 0 && is_authored(layer, a.0, a.1) && flag_of(stored_tile(layer, a.0, a.1))
        == TileFlag::NoCollision
}

impl Enemy {
    /// The velocity an enemy walks with before its step is resolved.
    pub open spec fn walk_velocity(self, dt: int) -> Vec2i {
        Vec2i {
            x: if self.facing_left {
                -self.ty.spec_speed()
            } else {
                self.ty.spec_speed()
            } as i32,
            y: clamp_i32(self.velocity.y + displacement(GRAVITY as int, dt)) as i32,
        }
    }

    /// The enemy after one step against `layer` with `broken` blocks gone.
    pub open spec fn stepped(
        self,
        layer: Map<(int, int), Seq<i16>>,
        broken: Seq<(i16, i16)>,
        dt: int,
    ) -> Enemy {
        let res = resolution(layer, broken, self.pos, self.walk_velocity(dt), dt);
        let facing = self.facing_left != (res.1.x == 0);
        Enemy {
            pos: res.0,
            velocity: res.1,
            facing_left: facing != at_ledge(layer, res.0, facing),
            time: clamp(self.time + dt, 0, u64::MAX as int) as u64,
            ..self
        }
    }

    /// One step of an active enemy: gravity, walking in its direction, the
    /// resolver; it turns round when a wall stopped it, and again when it
    /// stands at a ledge.
    pub fn update(&mut self, delta_time: u32, world: &World, broken_tiles: &[(i16, i16)])
        ensures
            *final(self) == old(self).stepped(world.collision@, broken_tiles@, delta_time as int),
    {
        self.time = if self.time > u64::MAX - delta_time as u64 {
            u64::MAX
        } else {
            self.time + delta_time as u64
        };
        self.velocity.y = add_saturating(self.velocity.y, step_displacement(GRAVITY, delta_time));
        let speed = self.ty.speed();
        self.velocity.x = if self.facing_left {
            -speed
        } else {
            speed
        };
        let old_velocity = self.velocity;
        let (pos, _, _, _) = update_physicsbody(
            self.pos,
            &mut self.velocity,
            delta_time,
            world,
            broken_tiles,
        );
        self.pos = pos;
        let ox: i32 = if old_velocity.x < 0 { -old_velocity.x } else { old_velocity.x };
        let nx: i32 = if self.velocity.x < 0 { -self.velocity.x } else { self.velocity.x };
        if ox > nx {
            self.facing_left = !self.facing_left;
        }
        let step: i64 = if self.facing_left {
            -(TILE_SIZE as i64)
        } else {
            TILE_SIZE as i64
        };
        let tx = saturate_i16(tile_round(self.pos.x as i64 + step));
        let ty = saturate_i16(tile_round(self.pos.y as i64 + TILE_SIZE as i64));
        if tx > 0 {
            let cx = origin_of(tx);
            let cy = origin_of(ty);
            match world.collision.get(cx, cy) {
                Some(c) => {
                    let tile = match c.tile_at((tx - cx) as usize, (ty - cy) as usize) {
                        Some(t) => t,
                        None => 0,
                    };
                    if get_tile_flag(tile).is_no_collision() {
                        self.facing_left = !self.facing_left;
                    }
                },
                None => {},
            }
        }
    }
}

} // verus!
