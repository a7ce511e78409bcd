use vstd::prelude::*;

use crate::physics::{resolution, update_physicsbody};
use crate::units::{
    add_saturating, clamp, clamp_i32, displacement, div_floor, saturate_i32, step_displacement,
    Vec2i, GRAVITY,
};
use crate::world::{World, WorldState};

verus! {

/// Half the screen width (128 pixels) in sub-pixel units: the camera leads
/// the player by this much.
pub const HALF_SCREEN_WIDTH: i32 = 32768;

/// The camera sits this far (24 pixels) above the player.
pub const CAMERA_RISE: i32 = 6144;

/// Horizontal acceleration from input: 1200 pixels per second squared.
pub const ACCELERATION: i32 = 307200;

/// Upward kick at the start of a jump: 138 pixels per second.
pub const JUMP_IMPULSE: i32 = 35328;

/// Upward acceleration while the jump is held: 300 pixels per second squared.
pub const JUMP_HOLD_ACCELERATION: i32 = 76800;

/// How long a held jump keeps lifting, in microseconds.
pub const MAX_JUMP_TIME: u32 = 500_000;

/// Friction rates per second, in thousandths: on the ground 10.2, in the
/// air 9; without input both count two and a half times.
pub const GROUND_FRICTION_WALKING: i64 = 10200;

pub const GROUND_FRICTION_IDLE: i64 = 25500;

pub const AIR_DRAG_WALKING: i64 = 9000;

pub const AIR_DRAG_IDLE: i64 = 22500;

/// Furthest the camera trails above its target (28 pixels).
pub const CAMERA_SLACK: i32 = 7168;

/// Velocity a dead player drifts toward: 32 pixels per second upward.
pub const DEATH_DRIFT: i32 = -8192;

/// What the player's controls say this frame.
#[derive(Clone, Copy, Debug, PartialEq, Eq, Structural)]
pub struct PlayerInput {
    /// -1 for left, 1 for right, 0 for neither.
    pub horizontal: i8,
    pub jump_held: bool,
    /// The jump key went down this frame.
    pub jump_pressed: bool,
}

/// Which animation the player shows; the number picks the animation.
#[derive(Clone, Copy, Debug, PartialEq, Eq, Structural)]
pub enum AnimState {
    Idle,
    Walk,
    Die,
}

impl AnimState {
    /// Index of this state's animation in the player's animation group.
    pub fn index(self) -> (r: usize)
        ensures
            r == (match self {
                AnimState::Idle => 0usize,
                AnimState::Walk => 1usize,
                AnimState::Die => 2usize,
            }),
    {
        match self {
            AnimState::Idle => 0,
            AnimState::Walk => 1,
            AnimState::Die => 2,
        }
    }
}

#[derive(Clone, Copy, Debug, PartialEq, Eq, Structural)]
pub enum PlayerState {
    Active,
    Died,
}

/// What the session has to do after a player step.
#[derive(Clone, Copy, Debug, PartialEq, Eq, Structural)]
pub enum PlayerUpdateResult {
    /// Nothing to do: play on.
    Continue,
    RestartLevel,
}

#[derive(Clone, Copy, Debug)]
pub struct Player {
    pub pos: Vec2i,
    pub camera_pos: Vec2i,
    pub velocity: Vec2i,
    pub grounded: bool,
    /// How long the current jump has been held, in microseconds.
    pub jump_time: u32,
    /// Time in the current state's clock, in microseconds.
    pub time: u64,
    pub anim_state: AnimState,
    pub facing_left: bool,
    pub player_state: PlayerState,
}

impl Player {
    pub open spec fn spawned(pos: Vec2i) -> Player {
        Player {
            pos,
            camera_pos: Vec2i {
                x: clamp_i32(pos.x + HALF_SCREEN_WIDTH) as i32,
                y: clamp_i32(pos.y - CAMERA_RISE) as i32,
            },
            velocity: Vec2i { x: 0, y: 0 },
            grounded: true,
            jump_time: 0,
            time: 0,
            anim_state: AnimState::Idle,
            facing_left: false,
            player_state: PlayerState::Active,
        }
    }

    /// A live player standing at `pos`, with the camera on it.
    pub fn new(pos: Vec2i) -> (r: Player)
        ensures
            r == Player::spawned(pos),
    {
        Player {
            pos,
            camera_pos: Vec2i {
                x: saturate_i32(pos.x as i64 + HALF_SCREEN_WIDTH as i64),
                y: saturate_i32(pos.y as i64 - CAMERA_RISE as i64),
            },
            time: 0,
            anim_state: AnimState::Idle,
            grounded: true,
            velocity: Vec2i::zero(),
            jump_time: 0,
            facing_left: false,
            player_state: PlayerState::Active,
        }
    }

    pub fn alive(&self) -> (r: bool)
        ensures
            r == (self.player_state == PlayerState::Active),
    {
        matches!(self.player_state, PlayerState::Active)
    }

    /// Kills a live player and restarts its clock for the death animation.
    pub fn die(&mut self)
        requires
            old(self).player_state == PlayerState::Active,
        ensures
            *final(self) == (Player { player_state: PlayerState::Died, time: 0, ..*old(self) }),
    {
        self.player_state = PlayerState::Died;
        self.time = 0;
    }
}

/// Friction rate, in thousandths per second.
pub open spec fn friction_rate(grounded: bool, walking: bool) -> int {
    if grounded {
        if walking {
            GROUND_FRICTION_WALKING as int
        } else {
            GROUND_FRICTION_IDLE as int
        }
    } else {
        if walking {
            AIR_DRAG_WALKING as int
        } else {
            AIR_DRAG_IDLE as int
        }
    }
}

/// `v` after friction at `rate` thousandths per second over `dt` microseconds.
pub open spec fn after_friction(v: int, rate: int, dt: int) -> int {
    clamp_i32(v - div_floor(v * rate * dt, 1_000_000_000))
}

/// `v` eased toward `target` at eight times per second over `dt` microseconds.
pub open spec fn eased(v: int, target: int, dt: int) -> int {
    clamp_i32(v + div_floor((target - v) * dt * 8, 1_000_000))
}

/// The jump clock once landing has reset it.
pub open spec fn jump_clock(p: Player) -> int {
    if p.grounded {
        0
    } else {
        p.jump_time as int
    }
}

/// The jump key lifts the player this step.
pub open spec fn lifting(p: Player, input: PlayerInput) -> bool {
    input.jump_held && (p.grounded || (0 < jump_clock(p) < MAX_JUMP_TIME))
}

/// Velocity of a live player after input, jump, friction and gravity, before
/// the resolver.
pub open spec fn driven_velocity(p: Player, input: PlayerInput, dt: int) -> Vec2i {
    let walking = input.horizontal != 0;
    let vx1 = if walking {
        clamp_i32(p.velocity.x + displacement(input.horizontal * ACCELERATION, dt))
    } else {
        p.velocity.x as int
    };
    let vy1 = if lifting(p, input) {
        if jump_clock(p) == 0 && input.jump_pressed {
            clamp_i32(p.velocity.y - JUMP_IMPULSE)
        } else {
            clamp_i32(p.velocity.y - displacement(JUMP_HOLD_ACCELERATION as int, dt))
        }
    } else {
        p.velocity.y as int
    };
    Vec2i {
        x: after_friction(vx1, friction_rate(p.grounded, walking), dt) as i32,
        y: clamp_i32(vy1 + displacement(GRAVITY as int, dt)) as i32,
    }
}

/// Where the camera goes for a player at `pos`: never left of half a
/// screen, level with the player's head when below it, at most the slack
/// above it.
pub open spec fn camera_follow(cam: Vec2i, pos: Vec2i) -> Vec2i {
    let target = clamp_i32(pos.y - CAMERA_RISE);
    Vec2i {
        x: if pos.x > HALF_SCREEN_WIDTH {
            pos.x
        } else {
            HALF_SCREEN_WIDTH
        },
        y: if cam.y < target {
            target as i32
        } else if cam.y - target > CAMERA_SLACK {
            (target + CAMERA_SLACK) as i32
        } else {
            cam.y
        },
    }
}

fn friction(v: i32, rate: i64, dt: u32) -> (r: i32)
    requires
        0 <= rate <= 30_000,
    ensures
        r == after_friction(v as int, rate as int, dt as int),
{
    assert(-0x8000_0000 * 30_000 <= v * rate <= 0x8000_0000 * 30_000) by (nonlinear_arith)
        requires
            -0x8000_0000 <= v < 0x8000_0000,
            0 <= rate <= 30_000,
    ;
    let vr: i128 = v as i128 * rate as i128;
    assert(-0x8000_0000 * 30_000 * 0xffff_ffff <= vr * dt <= 0x8000_0000 * 30_000 * 0xffff_ffff)
        by (nonlinear_arith)
        requires
            -0x8000_0000 * 30_000 <= vr <= 0x8000_0000 * 30_000,
            0 <= dt <= 0xffff_ffff,
    ;
    let prod: i128 = vr * dt as i128;
    let d: i128 = if prod >= 0 {
        prod / 1_000_000_000
    } else {
        -((-prod + 999_999_999) / 1_000_000_000)
    };
    let w: i128 = v as i128 - d;
    if w < i32::MIN as i128 {
        i32::MIN
    } else if w > i32::MAX as i128 {
        i32::MAX
    } else {
        w as i32
    }
}

fn ease(v: i32, target: i32, dt: u32) -> (r: i32)
    ensures
        r == eased(v as int, target as int, dt as int),
{
    let gap: i128 = target as i128 - v as i128;
    assert(-0x1_0000_0000 * 0xffff_ffff <= gap * dt <= 0x1_0000_0000 * 0xffff_ffff)
        by (nonlinear_arith)
        requires
            -0x1_0000_0000 <= gap <= 0x1_0000_0000,
            0 <= dt <= 0xffff_ffff,
    ;
    let prod: i128 = gap * dt as i128 * 8;
    let d: i128 = if prod >= 0 {
        prod / 1_000_000
    } else {
        -((-prod + 999_999) / 1_000_000)
    };
    let w: i128 = v as i128 + d;
    if w < i32::MIN as i128 {
        i32::MIN
    } else if w > i32::MAX as i128 {
        i32::MAX
    } else {
        w as i32
    }
}

fn add_time(t: u64, dt: u32) -> (r: u64)
    ensures
        r == clamp(t + dt, 0, u64::MAX as int),
{
    if t > u64::MAX - dt as u64 {
        u64::MAX
    } else {
        t + dt as u64
    }
}

impl Player {
    /// One frame of the player. A live player is driven by `input`,
    /// friction and gravity, moved by the resolver, dies on a death tile and
    /// records the block it broke; the camera follows. A dead player drifts
    /// upward until its death animation of `death_animation_ms` is over, and
    /// then asks for the level to restart.
    pub fn update(
        &mut self,
        delta_time: u32,
        input: PlayerInput,
        world: &World,
        world_state: &mut WorldState,
        death_animation_ms: u32,
    ) -> (r: PlayerUpdateResult)
        requires
            -1 <= input.horizontal <= 1,
        ensures
            final(world_state).enemies@ == old(world_state).enemies@,
            final(world_state).coins@ == old(world_state).coins@,
            final(world_state).taken_coins == old(world_state).taken_coins,
            ({
                let p = *old(self);
                let q = *final(self);
                let dt = delta_time as int;
                let time = clamp(p.time + dt, 0, u64::MAX as int);
                match p.player_state {
                    PlayerState::Active => {
                        let v = driven_velocity(p, input, dt);
                        let res = resolution(
                            world.collision@,
                            old(world_state).broken_tiles@,
                            p.pos,
                            v,
                            dt,
                        );
                        &&& r == PlayerUpdateResult::Continue
                        &&& q.pos == res.0
                        &&& q.velocity == res.1
                        &&& q.grounded == res.2
                        &&& q.player_state == (if res.3 {
                            PlayerState::Died
                        } else {
                            PlayerState::Active
                        })
                        &&& q.time == (if res.3 {
                            0
                        } else {
                            time
                        })
                        &&& q.jump_time == (if lifting(p, input) {
                            clamp(jump_clock(p) + dt, 0, u32::MAX as int)
                        } else {
                            jump_clock(p)
                        })
                        &&& q.anim_state == (if input.horizontal != 0 {
                            AnimState::Walk
                        } else {
                            AnimState::Idle
                        })
                        &&& q.facing_left == (if input.horizontal != 0 {
                            input.horizontal < 0
                        } else {
                            p.facing_left
                        })
                        &&& q.camera_pos == camera_follow(p.camera_pos, res.0)
                        &&& final(world_state).broken_tiles@ == (match res.4 {
                            Some(b) => if old(world_state).broken_tiles@.contains(b) {
                                old(world_state).broken_tiles@
                            } else {
                                old(world_state).broken_tiles@.push(b)
                            },
                            None => old(world_state).broken_tiles@,
                        })
                    },
                    PlayerState::Died => {
                        let v = Vec2i {
                            x: eased(p.velocity.x as int, 0, dt) as i32,
                            y: eased(p.velocity.y as int, DEATH_DRIFT as int, dt) as i32,
                        };
                        &&& q == (Player {
                            pos: Vec2i {
                                x: clamp_i32(p.pos.x + displacement(v.x as int, dt)) as i32,
                                y: clamp_i32(p.pos.y + displacement(v.y as int, dt)) as i32,
                            },
                            velocity: v,
                            time: time as u64,
                            anim_state: AnimState::Die,
                            ..p
                        })
                        &&& r == (if time >= death_animation_ms as int * 1000 {
                            PlayerUpdateResult::RestartLevel
                        } else {
                            PlayerUpdateResult::Continue
                        })
                        &&& final(world_state).broken_tiles@ == old(world_state).broken_tiles@
                    },
                }
            }),
    {
        self.time = add_time(self.time, delta_time);
        match self.player_state {
            PlayerState::Active => {
                let walking = input.horizontal != 0;
                self.anim_state = AnimState::Idle;
                if walking {
                    self.anim_state = AnimState::Walk;
                    self.facing_left = input.horizontal < 0;
                    let accel: i32 = input.horizontal as i32 * ACCELERATION;
                    self.velocity.x = add_saturating(
                        self.velocity.x,
                        step_displacement(accel, delta_time),
                    );
                }
                if self.grounded {
                    self.jump_time = 0;
                }
                if input.jump_held && (self.grounded || (self.jump_time > 0 && self.jump_time
                    < MAX_JUMP_TIME)) {
                    if self.jump_time == 0 && input.jump_pressed {
                        self.velocity.y = add_saturating(self.velocity.y, -(JUMP_IMPULSE as i64));
                    } else {
                        self.velocity.y = add_saturating(
                            self.velocity.y,
                            -step_displacement(JUMP_HOLD_ACCELERATION, delta_time),
                        );
                    }
                    self.jump_time = if self.jump_time > u32::MAX - delta_time {
                        u32::MAX
                    } else {
                        self.jump_time + delta_time
                    };
                }
                let rate: i64 = if self.grounded {
                    if walking {
                        GROUND_FRICTION_WALKING
                    } else {
                        GROUND_FRICTION_IDLE
                    }
                } else {
                    if walking {
                        AIR_DRAG_WALKING
                    } else {
                        AIR_DRAG_IDLE
                    }
                };
                self.velocity.x = friction(self.velocity.x, rate, delta_time);
                self.velocity.y = add_saturating(
                    self.velocity.y,
                    step_displacement(GRAVITY, delta_time),
                );
                let (pos, grounded, touched_death_tile, broke_block) = update_physicsbody(
                    self.pos,
                    &mut self.velocity,
                    delta_time,
                    world,
                    world_state.broken_tiles.as_slice(),
                );
                self.pos = pos;
                self.grounded = grounded;
                if touched_death_tile {
                    self.die();
                }
                match broke_block {
                    Some(b) => world_state.record_broken(b),
                    None => {},
                }
                self.camera_pos.x = if self.pos.x > HALF_SCREEN_WIDTH {
                    self.pos.x
                } else {
                    HALF_SCREEN_WIDTH
                };
                let target = saturate_i32(self.pos.y as i64 - CAMERA_RISE as i64);
                if self.camera_pos.y < target {
                    self.camera_pos.y = target;
                } else if self.camera_pos.y as i64 - target as i64 > CAMERA_SLACK as i64 {
                    self.camera_pos.y = target + CAMERA_SLACK;
                }
                PlayerUpdateResult::Continue
            },
            PlayerState::Died => {
                self.velocity = Vec2i {
                    x: ease(self.velocity.x, 0, delta_time),
                    y: ease(self.velocity.y, DEATH_DRIFT, delta_time),
                };
                self.pos = Vec2i {
                    x: add_saturating(self.pos.x, step_displacement(self.velocity.x, delta_time)),
                    y: add_saturating(self.pos.y, step_displacement(self.velocity.y, delta_time)),
                };
                self.anim_state = AnimState::Die;
                if self.time >= death_animation_ms as u64 * 1000 {
                    PlayerUpdateResult::RestartLevel
                } else {
                    PlayerUpdateResult::Continue
                }
            },
        }
    }
}

} // verus!
