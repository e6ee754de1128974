//! Points on the play field.
//!
//! Every road end, terminus and obstacle corner sits on the drawing grid, so
//! a point is held as integer world coordinates.

use vstd::prelude::*;

verus! {

/// A point of the play field, in world units.
#[derive(Clone, Copy, Debug, PartialEq, Eq, Structural)]
pub struct Point {
    pub x: i32,
    pub y: i32,
}

impl Point {
    pub fn new(x: i32, y: i32) -> (p: Point)
        ensures
            p.x == x,
            p.y == y,
    {
        Point { x, y }
    }
}

/// A straight piece of road on one layer.
#[derive(Clone, Copy, Debug)]
pub struct RoadSegment {
    pub points: (Point, Point),
    pub layer: u32,
}

/// The z-component of the cross product of `u` and `v` (Bevy's `perp_dot`).
pub open spec fn cross(ux: int, uy: int, vx: int, vy: int) -> int {
    ux * vy - uy * vx
}

/// The dot product of `u` and `v`.
pub open spec fn dot(ux: int, uy: int, vx: int, vy: int) -> int {
    ux * vx + uy * vy
}

/// `perp_dot` of two differences of `i32` coordinates, computed without overflow.
pub fn perp_dot(ux: i64, uy: i64, vx: i64, vy: i64) -> (r: i128)
    requires
        -0x2_0000_0000 <= ux <= 0x2_0000_0000,
        -0x2_0000_0000 <= uy <= 0x2_0000_0000,
        -0x2_0000_0000 <= vx <= 0x2_0000_0000,
        -0x2_0000_0000 <= vy <= 0x2_0000_0000,
    ensures
        r == cross(ux as int, uy as int, vx as int, vy as int),
{
    let a = ux as i128;
    let b = uy as i128;
    let c = vx as i128;
    let d = vy as i128;
    assert(-0x4_0000_0000_0000_0000 <= a * d <= 0x4_0000_0000_0000_0000) by (nonlinear_arith)
        requires
            -0x2_0000_0000 <= a <= 0x2_0000_0000,
            -0x2_0000_0000 <= d <= 0x2_0000_0000,
    ;
    assert(-0x4_0000_0000_0000_0000 <= b * c <= 0x4_0000_0000_0000_0000) by (nonlinear_arith)
        requires
            -0x2_0000_0000 <= b <= 0x2_0000_0000,
            -0x2_0000_0000 <= c <= 0x2_0000_0000,
    ;
    a * d - b * c
}

/// The dot product of two differences of `i32` coordinates, computed without overflow.
pub fn dot_product(ux: i64, uy: i64, vx: i64, vy: i64) -> (r: i128)
    requires
        -0x2_0000_0000 <= ux <= 0x2_0000_0000,
        -0x2_0000_0000 <= uy <= 0x2_0000_0000,
        -0x2_0000_0000 <= vx <= 0x2_0000_0000,
        -0x2_0000_0000 <= vy <= 0x2_0000_0000,
    ensures
        r == dot(ux as int, uy as int, vx as int, vy as int),
{
    let a = ux as i128;
    let b = uy as i128;
    let c = vx as i128;
    let d = vy as i128;
    assert(-0x4_0000_0000_0000_0000 <= a * c <= 0x4_0000_0000_0000_0000) by (nonlinear_arith)
        requires
            -0x2_0000_0000 <= a <= 0x2_0000_0000,
            -0x2_0000_0000 <= c <= 0x2_0000_0000,
    ;
    assert(-0x4_0000_0000_0000_0000 <= b * d <= 0x4_0000_0000_0000_0000) by (nonlinear_arith)
        requires
            -0x2_0000_0000 <= b <= 0x2_0000_0000,
            -0x2_0000_0000 <= d <= 0x2_0000_0000,
    ;
    a * c + b * d
}

} // verus!
