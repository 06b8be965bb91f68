//! Integer vectors and the vertex of a compact vertex list.

use vstd::prelude::*;

verus! {

/// A point or direction with exact integer coordinates. What one unit
/// stands for is fixed by the owner of the value (a fixed-point unit, or
/// a mesh's shared denominator).
#[derive(Clone, Copy, Debug, PartialEq, Eq, Structural)]
pub struct Vec3 {
    pub x: i128,
    pub y: i128,
    pub z: i128,
}

/// A texture coordinate in fixed-point units.
#[derive(Clone, Copy, Debug, PartialEq, Eq, Structural)]
pub struct Vec2 {
    pub u: i128,
    pub v: i128,
}

/// One entry of a compact vertex list: a position, a normal and a texture
/// coordinate.
#[derive(Clone, Copy, Debug, PartialEq, Eq, Structural)]
pub struct Vertex {
    pub pos: Vec3,
    pub normal: Vec3,
    pub uv: Vec2,
}

/// Coordinate `a` of `v`: 0 for x, 1 for y, any other for z.
pub open spec fn coord(v: Vec3, a: int) -> int {
    if a == 0 {
        v.x as int
    } else if a == 1 {
        v.y as int
    } else {
        v.z as int
    }
}

impl Vec3 {
    pub fn new(x: i128, y: i128, z: i128) -> (r: Vec3)
        ensures
            r == (Vec3 { x, y, z }),
    {
        Vec3 { x, y, z }
    }

    pub fn zero() -> (r: Vec3)
        ensures
            r == (Vec3 { x: 0, y: 0, z: 0 }),
    {
        Vec3 { x: 0, y: 0, z: 0 }
    }
}

impl Vec2 {
    pub fn new(u: i128, v: i128) -> (r: Vec2)
        ensures
            r == (Vec2 { u, v }),
    {
        Vec2 { u, v }
    }

    pub fn zero() -> (r: Vec2)
        ensures
            r == (Vec2 { u: 0, v: 0 }),
    {
        Vec2 { u: 0, v: 0 }
    }
}

} // verus!
