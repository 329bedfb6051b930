//! The color value type and the distance metric between two colors.

use vstd::prelude::*;

verus! {

/// An RGB color: three 8-bit channels. A plain value type; equality is
/// structural on the channels.
#[derive(Clone, Copy, Debug, PartialEq, Eq, Structural)]
pub struct Color {
    pub r: u8,
    pub g: u8,
    pub b: u8,
}

/// The distance between two colors: the sum of the absolute per-channel
/// differences (the L1 / Manhattan metric in RGB space). Ranges over 0..=765.
pub open spec fn dist(a: Color, b: Color) -> int {
    abs_diff(a.r as int, b.r as int) + abs_diff(a.g as int, b.g as int) + abs_diff(
        a.b as int,
        b.b as int,
    )
}

pub open spec fn abs_diff(x: int, y: int) -> int {
    if x >= y {
        x - y
    } else {
        y - x
    }
}

impl Color {
    pub fn new(r: u8, g: u8, b: u8) -> (c: Color)
        ensures
            c == (Color { r, g, b }),
    {
        Color { r, g, b }
    }
}

/// Computes `dist(a, b)` exactly; total over all 8-bit channel values, so the
/// sum never exceeds 765 and fits comfortably in a `u32`.
pub fn distance(a: Color, b: Color) -> (d: u32)
    ensures
        d == dist(a, b),
{
    let dr: u32 = if a.r >= b.r {
        (a.r - b.r) as u32
    } else {
        (b.r - a.r) as u32
    };
    let dg: u32 = if a.g >= b.g {
        (a.g - b.g) as u32
    } else {
        (b.g - a.g) as u32
    };
    let db: u32 = if a.b >= b.b {
        (a.b - b.b) as u32
    } else {
        (b.b - a.b) as u32
    };
    dr + dg + db
}

/// The metric is symmetric: the distance from `a` to `b` equals the distance
/// from `b` to `a`.
pub proof fn lemma_dist_symmetric(a: Color, b: Color)
    ensures
        dist(a, b) == dist(b, a),
{
}

/// The metric is non-negative, and zero exactly on equal colors.
pub proof fn lemma_dist_zero_iff_eq(a: Color, b: Color)
    ensures
        dist(a, b) >= 0,
        dist(a, b) == 0 <==> a == b,
{
}

} // verus!
