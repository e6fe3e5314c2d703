//! Pixel-space geometry: clamped arithmetic and rectangles.
//!
//! Every coordinate and extent in the engine is a whole number of pixels in
//! `0 ..= GEOM_MAX`. Addition saturates at `GEOM_MAX` and subtraction stops at
//! zero, so box math is total: no layout input can overflow or produce a
//! negative extent. `GEOM_MAX` itself doubles as the "unbounded" extent for
//! availability rectangles whose height is not constrained.

use vstd::prelude::*;

verus! {

/// Largest representable pixel coordinate or extent.
pub const GEOM_MAX: u64 = 0xFFFF_FFFF;

/// An availability rectangle whose height equals `GEOM_MAX` is treated as
/// vertically unconstrained.
pub const UNBOUNDED: u64 = 0xFFFF_FFFF;

/// Clamped addition: `a + b`, saturating at `GEOM_MAX`.
pub open spec fn cadd(a: int, b: int) -> int {
    if a + b > GEOM_MAX { GEOM_MAX as int } else { a + b }
}

/// Clamped subtraction: `a - b`, stopping at zero.
pub open spec fn csub(a: int, b: int) -> int {
    if a >= b { a - b } else { 0 }
}

/// The smaller of two values.
pub open spec fn smin(a: int, b: int) -> int {
    if a <= b { a } else { b }
}

/// The larger of two values.
pub open spec fn smax(a: int, b: int) -> int {
    if a >= b { a } else { b }
}

/// A pixel value is in range.
pub open spec fn in_range(a: int) -> bool {
    0 <= a <= GEOM_MAX
}

/// Clamped addition of three summands, left to right.
pub open spec fn cadd3(a: int, b: int, c: int) -> int {
    cadd(cadd(a, b), c)
}

/// Clamped addition of four summands, left to right.
pub open spec fn cadd4(a: int, b: int, c: int, d: int) -> int {
    cadd(cadd3(a, b, c), d)
}

pub fn gadd(a: u64, b: u64) -> (r: u64)
    requires
        in_range(a as int),
        in_range(b as int),
    ensures
        r == cadd(a as int, b as int),
        in_range(r as int),
{
    let s = a + b;
    if s > GEOM_MAX {
        GEOM_MAX
    } else {
        s
    }
}

pub fn gsub(a: u64, b: u64) -> (r: u64)
    ensures
        r == csub(a as int, b as int),
        a <= GEOM_MAX ==> in_range(r as int),
{
    if a >= b {
        a - b
    } else {
        0
    }
}

pub fn gmin(a: u64, b: u64) -> (r: u64)
    ensures
        r == smin(a as int, b as int),
{
    if a <= b {
        a
    } else {
        b
    }
}

pub fn gmax(a: u64, b: u64) -> (r: u64)
    ensures
        r == smax(a as int, b as int),
{
    if a >= b {
        a
    } else {
        b
    }
}

/// `count * each`, saturating at `GEOM_MAX`.
pub open spec fn cmul(count: int, each: int) -> int {
    if count * each > GEOM_MAX { GEOM_MAX as int } else { count * each }
}

pub fn gmul(count: u64, each: u64) -> (r: u64)
    requires
        in_range(count as int),
        in_range(each as int),
    ensures
        r == cmul(count as int, each as int),
        in_range(r as int),
{
    proof {
        assert(count * each <= 0xFFFF_FFFF * 0xFFFF_FFFF) by (nonlinear_arith)
            requires
                0 <= count <= 0xFFFF_FFFF,
                0 <= each <= 0xFFFF_FFFF,
        ;
    }
    let p: u128 = (count as u128) * (each as u128);
    if p > GEOM_MAX as u128 {
        proof {
            assert(count * each > GEOM_MAX);
        }
        GEOM_MAX
    } else {
        proof {
            assert(count * each <= GEOM_MAX);
        }
        p as u64
    }
}

/// A percentage of an extent: `avail * p / 100`, the percentage capped at
/// 1000 and the result clamped to `GEOM_MAX`.
pub open spec fn cpct(avail: int, p: int) -> int {
    smin(avail * smin(p, 1000) / 100, GEOM_MAX as int)
}

pub fn gpct(avail: u64, p: u32) -> (r: u64)
    requires
        in_range(avail as int),
    ensures
        r == cpct(avail as int, p as int),
        in_range(r as int),
{
    let pc: u64 = if p > 1000 {
        1000
    } else {
        p as u64
    };
    proof {
        assert(avail * pc <= 0xFFFF_FFFF * 1000) by (nonlinear_arith)
            requires
                0 <= avail <= 0xFFFF_FFFF,
                0 <= pc <= 1000,
        ;
    }
    let t = avail * pc / 100;
    gmin(t, GEOM_MAX)
}

/// A border-box rectangle in viewport coordinates: top-left position and
/// actual extents, all whole pixels.
#[derive(Clone, Copy, Debug, PartialEq, Eq, Structural)]
pub struct Rect {
    pub x: u64,
    pub y: u64,
    pub width: u64,
    pub height: u64,
}

impl Rect {
    /// All four fields are in pixel range.
    pub open spec fn wf(self) -> bool {
        in_range(self.x as int) && in_range(self.y as int) && in_range(self.width as int)
            && in_range(self.height as int)
    }

    pub fn new(x: u64, y: u64, width: u64, height: u64) -> (r: Rect)
        requires
            in_range(x as int),
            in_range(y as int),
            in_range(width as int),
            in_range(height as int),
        ensures
            r == (Rect { x, y, width, height }),
            r.wf(),
    {
        Rect { x, y, width, height }
    }

    /// The zero-size rectangle at the origin.
    pub fn zero() -> (r: Rect)
        ensures
            r == (Rect { x: 0u64, y: 0u64, width: 0u64, height: 0u64 }),
            r.wf(),
    {
        Rect { x: 0, y: 0, width: 0, height: 0 }
    }

    /// Bottom edge (`y + height`, clamped).
    pub open spec fn spec_bottom(self) -> int {
        cadd(self.y as int, self.height as int)
    }

    pub fn bottom_edge(&self) -> (r: u64)
        requires
            self.wf(),
        ensures
            r == self.spec_bottom(),
            in_range(r as int),
    {
        gadd(self.y, self.height)
    }

    /// Right edge (`x + width`, clamped).
    pub open spec fn spec_right(self) -> int {
        cadd(self.x as int, self.width as int)
    }

    pub fn right_edge(&self) -> (r: u64)
        requires
            self.wf(),
        ensures
            r == self.spec_right(),
            in_range(r as int),
    {
        gadd(self.x, self.width)
    }

    /// The vertical spans of `self` and `other` intersect.
    pub open spec fn vert_overlaps(self, other: Rect) -> bool {
        self.y < other.spec_bottom() && other.y < self.spec_bottom()
    }

    /// The horizontal spans of `self` and `other` intersect.
    pub open spec fn horiz_overlaps(self, other: Rect) -> bool {
        self.x < other.spec_right() && other.x < self.spec_right()
    }
}

} // verus!
