//! Points and axis-aligned rectangles of the game world.
//!
//! World coordinates are IEEE-754 single-precision numbers. They travel in
//! the packets as their 32-bit patterns, and the library holds them the same
//! way: a coordinate is the `u32` bit pattern of an `f32`. Comparisons are
//! decided here, on the bit patterns, with the IEEE-754 meaning; arithmetic
//! on coordinates is left to the caller.
use vstd::prelude::*;

verus! {

/// The bit pattern is a NaN: all exponent bits set and a non-zero fraction.
pub open spec fn f32_is_nan(b: u32) -> bool {
    (b & 0x7f80_0000) == 0x7f80_0000 && (b & 0x007f_ffff) != 0
}

/// The position of a non-NaN value on the real line, up to a monotone
/// change of scale: the magnitude bits, negated when the sign bit is set.
/// Both zeros have key 0.
pub open spec fn f32_key(b: u32) -> int {
    if (b & 0x8000_0000) != 0 {
        -((b & 0x7fff_ffff) as int)
    } else {
        (b & 0x7fff_ffff) as int
    }
}

/// IEEE-754 `a <= b`: false when either is a NaN.
pub open spec fn f32_le(a: u32, b: u32) -> bool {
    !f32_is_nan(a) && !f32_is_nan(b) && f32_key(a) <= f32_key(b)
}

/// IEEE-754 `a < b`: false when either is a NaN.
pub open spec fn f32_lt(a: u32, b: u32) -> bool {
    !f32_is_nan(a) && !f32_is_nan(b) && f32_key(a) < f32_key(b)
}

fn is_nan_bits(b: u32) -> (r: bool)
    ensures
        r == f32_is_nan(b),
{
    (b & 0x7f80_0000) == 0x7f80_0000 && (b & 0x007f_ffff) != 0
}

fn key_bits(b: u32) -> (k: i64)
    ensures
        k == f32_key(b),
{
    let m = (b & 0x7fff_ffff) as i64;
    if (b & 0x8000_0000) != 0 {
        -m
    } else {
        m
    }
}

/// `a <= b` on the numbers whose bit patterns are given.
pub fn f32_bits_le(a: u32, b: u32) -> (r: bool)
    ensures
        r == f32_le(a, b),
{
    if is_nan_bits(a) || is_nan_bits(b) {
        false
    } else {
        key_bits(a) <= key_bits(b)
    }
}

/// `a < b` on the numbers whose bit patterns are given.
pub fn f32_bits_lt(a: u32, b: u32) -> (r: bool)
    ensures
        r == f32_lt(a, b),
{
    if is_nan_bits(a) || is_nan_bits(b) {
        false
    } else {
        key_bits(a) < key_bits(b)
    }
}

/// A point of the world, each coordinate as an `f32` bit pattern.
#[derive(Clone, Copy, Debug, PartialEq, Eq, Structural)]
pub struct Vec2 {
    pub x: u32,
    pub y: u32,
}

/// An axis-aligned rectangle given by its lower and upper corners.
#[derive(Clone, Copy, Debug, PartialEq, Eq, Structural)]
pub struct Rect {
    pub min: Vec2,
    pub max: Vec2,
}

impl Vec2 {
    pub fn new(x: u32, y: u32) -> (r: Vec2)
        ensures
            r.x == x,
            r.y == y,
    {
        Vec2 { x, y }
    }
}

/// The smaller of two coordinates as `a < b` picks it: `b` unless `a < b`.
pub open spec fn spec_min(a: u32, b: u32) -> u32 {
    if f32_lt(a, b) {
        a
    } else {
        b
    }
}

/// The larger of two coordinates as `a > b` picks it: `b` unless `a > b`.
pub open spec fn spec_max(a: u32, b: u32) -> u32 {
    if f32_lt(b, a) {
        a
    } else {
        b
    }
}

/// The rectangle spanned by two opposite corners.
pub open spec fn spec_from_corners(p0: Vec2, p1: Vec2) -> Rect {
    Rect {
        min: Vec2 { x: spec_min(p0.x, p1.x), y: spec_min(p0.y, p1.y) },
        max: Vec2 { x: spec_max(p0.x, p1.x), y: spec_max(p0.y, p1.y) },
    }
}

fn min_bits(a: u32, b: u32) -> (r: u32)
    ensures
        r == spec_min(a, b),
{
    if f32_bits_lt(a, b) {
        a
    } else {
        b
    }
}

fn max_bits(a: u32, b: u32) -> (r: u32)
    ensures
        r == spec_max(a, b),
{
    if f32_bits_lt(b, a) {
        a
    } else {
        b
    }
}

impl Rect {
    /// The rectangle spanned by two opposite corners, whatever their order.
    pub fn from_corners(p0: Vec2, p1: Vec2) -> (r: Rect)
        ensures
            r == spec_from_corners(p0, p1),
    {
        Rect {
            min: Vec2 { x: min_bits(p0.x, p1.x), y: min_bits(p0.y, p1.y) },
            max: Vec2 { x: max_bits(p0.x, p1.x), y: max_bits(p0.y, p1.y) },
        }
    }

    /// The rectangle holds the point, edges included.
    pub open spec fn spec_contains(self, p: Vec2) -> bool {
        &&& f32_le(self.min.x, p.x)
        &&& f32_le(self.min.y, p.y)
        &&& f32_le(p.x, self.max.x)
        &&& f32_le(p.y, self.max.y)
    }

    /// Whether the rectangle holds the point, edges included.
    pub fn contains(&self, p: Vec2) -> (r: bool)
        ensures
            r == self.spec_contains(p),
    {
        f32_bits_le(self.min.x, p.x) && f32_bits_le(self.min.y, p.y) && f32_bits_le(p.x, self.max.x)
            && f32_bits_le(p.y, self.max.y)
    }
}

} // verus!
