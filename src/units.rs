use vstd::prelude::*;

verus! {

/// Sub-pixel steps in one pixel: positions and velocities are integers in
/// these units.
pub const SUBPIXELS: i32 = 256;

/// Pixels along one side of a tile.
pub const TILE_PIXELS: i32 = 8;

/// Sub-pixel units along one side of a tile.
pub const TILE_SIZE: i32 = 2048;

/// Time steps are given in microseconds.
pub const MICROS_PER_SECOND: i64 = 1_000_000;

/// A point or a velocity in sub-pixel units (velocities per second).
#[derive(Clone, Copy, Debug, PartialEq, Eq, Structural)]
pub struct Vec2i {
    pub x: i32,
    pub y: i32,
}

impl Vec2i {
    pub fn new(x: i32, y: i32) -> (r: Vec2i)
        ensures
            r.x == x,
            r.y == y,
    {
        Vec2i { x, y }
    }

    pub fn zero() -> (r: Vec2i)
        ensures
            r.x == 0,
            r.y == 0,
    {
        Vec2i { x: 0, y: 0 }
    }
}

pub open spec fn clamp(v: int, lo: int, hi: int) -> int {
    if v < lo {
        lo
    } else if v > hi {
        hi
    } else {
        v
    }
}

pub open spec fn clamp_i32(v: int) -> int {
    clamp(v, i32::MIN as int, i32::MAX as int)
}

pub open spec fn clamp_i16(v: int) -> int {
    clamp(v, i16::MIN as int, i16::MAX as int)
}

/// `a / d` rounded toward zero.
pub open spec fn div_trunc(a: int, d: int) -> int {
    if a >= 0 {
        a / d
    } else {
        -((-a) / d)
    }
}

/// `a / d` rounded away from zero.
pub open spec fn div_away(a: int, d: int) -> int {
    if a >= 0 {
        (a + d - 1) / d
    } else {
        -((-a + d - 1) / d)
    }
}

/// `a / d` rounded down.
pub open spec fn div_floor(a: int, d: int) -> int {
    if a >= 0 {
        a / d
    } else {
        -((-a + d - 1) / d)
    }
}

/// `a / d` rounded up.
pub open spec fn div_ceil(a: int, d: int) -> int {
    if a >= 0 {
        (a + d - 1) / d
    } else {
        -((-a) / d)
    }
}

/// How far a velocity carries over a time step, rounded down.
pub open spec fn displacement(v: int, dt: int) -> int {
    div_floor(v * dt, MICROS_PER_SECOND as int)
}

pub fn saturate_i32(v: i64) -> (r: i32)
    ensures
        r == clamp_i32(v as int),
{
    if v < i32::MIN as i64 {
        i32::MIN
    } else if v > i32::MAX as i64 {
        i32::MAX
    } else {
        v as i32
    }
}

pub fn saturate_i16(v: i32) -> (r: i16)
    ensures
        r == clamp_i16(v as int),
{
    if v < i16::MIN as i32 {
        i16::MIN
    } else if v > i16::MAX as i32 {
        i16::MAX
    } else {
        v as i16
    }
}

/// Tile coordinate of a sub-pixel coordinate, rounded toward zero.
pub fn tile_trunc(p: i32) -> (r: i32)
    ensures
        r == div_trunc(p as int, TILE_SIZE as int),
        -0x10_0000 <= r <= 0x10_0000,
{
    let a: i64 = p as i64;
    if a >= 0 {
        (a / 2048) as i32
    } else {
        (-((-a) / 2048)) as i32
    }
}

/// Tile coordinate of a sub-pixel coordinate, rounded away from zero.
pub fn tile_away(p: i32) -> (r: i32)
    ensures
        r == div_away(p as int, TILE_SIZE as int),
        -0x10_0000 <= r <= 0x10_0000,
{
    let a: i64 = p as i64;
    if a >= 0 {
        ((a + 2047) / 2048) as i32
    } else {
        (-((-a + 2047) / 2048)) as i32
    }
}

/// Tile coordinate of a sub-pixel coordinate, rounded down.
pub fn tile_floor(p: i32) -> (r: i32)
    ensures
        r == div_floor(p as int, TILE_SIZE as int),
        -0x10_0000 <= r <= 0x10_0000,
{
    let a: i64 = p as i64;
    if a >= 0 {
        (a / 2048) as i32
    } else {
        (-((-a + 2047) / 2048)) as i32
    }
}

/// Tile coordinate of a sub-pixel coordinate, rounded up.
pub fn tile_ceil(p: i32) -> (r: i32)
    ensures
        r == div_ceil(p as int, TILE_SIZE as int),
        -0x10_0000 <= r <= 0x10_0000,
{
    let a: i64 = p as i64;
    if a >= 0 {
        ((a + 2047) / 2048) as i32
    } else {
        (-((-a) / 2048)) as i32
    }
}

/// `v * dt / 1_000_000`, rounded down, for `dt` in microseconds.
pub fn step_displacement(v: i32, dt: u32) -> (r: i64)
    ensures
        r == displacement(v as int, dt as int),
        -0x10_0000_0000_0000 <= r <= 0x10_0000_0000_0000,
{
    let vv: i64 = v as i64;
    let tt: i64 = dt as i64;
    assert(-0x8000_0000 * 0xffff_ffff <= vv * tt <= 0x7fff_ffff * 0xffff_ffff) by (nonlinear_arith)
        requires
            -0x8000_0000 <= vv <= 0x7fff_ffff,
            0 <= tt <= 0xffff_ffff,
    ;
    let prod: i64 = vv * tt;
    if prod >= 0 {
        prod / 1_000_000
    } else {
        -((-prod + 999_999) / 1_000_000)
    }
}

/// Downward acceleration in sub-pixel units per second squared (612
/// pixels per second squared).
pub const GRAVITY: i32 = 156672;

/// `a / d` rounded to the nearest integer, halves away from zero.
pub open spec fn div_round(a: int, d: int) -> int {
    if a >= 0 {
        (2 * a + d) / (2 * d)
    } else {
        -((-2 * a + d) / (2 * d))
    }
}

/// Tile coordinate nearest to a sub-pixel coordinate, halves away from zero.
pub fn tile_round(p: i64) -> (r: i32)
    requires
        -0x1_0000_0000 <= p <= 0x1_0000_0000,
    ensures
        r == div_round(p as int, TILE_SIZE as int),
{
    if p >= 0 {
        ((2 * p + 2048) / 4096) as i32
    } else {
        let q: i64 = -p;
        (-((2 * q + 2048) / 4096)) as i32
    }
}

/// `v + dv`, held to the range of `i32`.
pub fn add_saturating(v: i32, dv: i64) -> (r: i32)
    requires
        -0x10_0000_0000_0000 <= dv <= 0x10_0000_0000_0000,
    ensures
        r == clamp_i32(v + dv),
{
    saturate_i32(v as i64 + dv)
}

} // verus!
