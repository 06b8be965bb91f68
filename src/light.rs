//! Lights and their packing into fixed-layout records.

use vstd::prelude::*;
use crate::color::Color;
use crate::text::UNIT;
use crate::vertex::Vec3;

verus! {

/// Most lights that one upload carries.
pub const MAX_LIGHTS: usize = 8;

/// Cone of a spot light, in fixed-point units.
#[derive(Clone, Copy, Debug, PartialEq, Eq, Structural)]
pub struct SpotLightInfo {
    pub inner_radius: i128,
    pub outer_radius: i128,
    pub falloff: i128,
}

/// Kind of light, with its geometry in fixed-point units.
#[derive(Clone, Copy, Debug, PartialEq, Eq, Structural)]
pub enum LightType {
    Directional(Vec3),
    Point(Vec3),
    Spot(Vec3, Vec3, SpotLightInfo),
}

#[derive(Clone, Copy, Debug, PartialEq, Eq, Structural)]
pub struct Light {
    pub light_type: LightType,
    pub diffuse_color: Color,
    pub specular_color: Color,
    pub ambient_color: Color,
}

/// A homogeneous vector in fixed-point units: `w` is `UNIT` for a point
/// and 0 for a direction.
#[derive(Clone, Copy, Debug, PartialEq, Eq, Structural)]
pub struct Vec4 {
    pub x: i128,
    pub y: i128,
    pub z: i128,
    pub w: i128,
}

/// The fixed layout of one light for the rendering stage. `light_type` is
/// 0 for directional, 1 for point and 2 for spot lights; fields that a
/// kind does not use are zero.
#[derive(Clone, Copy, Debug, PartialEq, Eq, Structural)]
pub struct LightRecord {
    pub diffuse_color: Color,
    pub ambient_color: Color,
    pub specular_color: Color,
    pub position: Vec4,
    pub direction: Vec4,
    pub light_type: i32,
    pub spotlight_outer: i128,
    pub spotlight_inner: i128,
    pub spotlight_falloff: i128,
}

/// The lights of one upload: how many are active, and exactly
/// `MAX_LIGHTS` records of which the first `count` are in use.
pub struct LightUpload {
    pub count: i32,
    pub records: Vec<LightRecord>,
}

pub open spec fn as_point(v: Vec3) -> Vec4 {
    Vec4 { x: v.x, y: v.y, z: v.z, w: UNIT }
}

pub open spec fn as_direction(v: Vec3) -> Vec4 {
    Vec4 { x: v.x, y: v.y, z: v.z, w: 0 }
}

pub open spec fn zero_vec4() -> Vec4 {
    Vec4 { x: 0, y: 0, z: 0, w: 0 }
}

/// The record of a light.
pub open spec fn light_record(l: Light) -> LightRecord {
    let (position, direction, light_type, outer, inner, falloff) = match l.light_type {
        LightType::Directional(dir) => (
            Vec4 { x: 0, y: 0, z: 0, w: UNIT },
            as_direction(dir),
            0i32,
            0i128,
            0i128,
            0i128,
        ),
        LightType::Point(pos) => (as_point(pos), zero_vec4(), 1i32, 0i128, 0i128, 0i128),
        LightType::Spot(pos, dir, info) => (
            as_point(pos),
            as_direction(dir),
            2i32,
            info.outer_radius,
            info.inner_radius,
            info.falloff,
        ),
    };
    LightRecord {
        diffuse_color: l.diffuse_color,
        ambient_color: l.ambient_color,
        specular_color: l.specular_color,
        position,
        direction,
        light_type,
        spotlight_outer: outer,
        spotlight_inner: inner,
        spotlight_falloff: falloff,
    }
}

/// The record that fills an unused slot.
pub open spec fn empty_record() -> LightRecord {
    let black = Color { r: 0, g: 0, b: 0, a: 0 };
    LightRecord {
        diffuse_color: black,
        ambient_color: black,
        specular_color: black,
        position: zero_vec4(),
        direction: zero_vec4(),
        light_type: 0,
        spotlight_outer: 0,
        spotlight_inner: 0,
        spotlight_falloff: 0,
    }
}

impl Light {
    pub fn new(light_type: LightType, diffuse: Color, spec: Color, amb: Color) -> (l: Self)
        ensures
            l == (Light {
                light_type,
                diffuse_color: diffuse,
                specular_color: spec,
                ambient_color: amb,
            }),
    {
        Light { light_type, diffuse_color: diffuse, specular_color: spec, ambient_color: amb }
    }

    pub fn new_spot(
        pos: Vec3,
        dir: Vec3,
        spot_info: SpotLightInfo,
        diffuse: Color,
        spec: Color,
        amb: Color,
    ) -> (l: Self)
        ensures
            l == (Light {
                light_type: LightType::Spot(pos, dir, spot_info),
                diffuse_color: diffuse,
                specular_color: spec,
                ambient_color: amb,
            }),
    {
        Self::new(LightType::Spot(pos, dir, spot_info), diffuse, spec, amb)
    }

    pub fn new_directional(dir: Vec3, diffuse: Color, spec: Color, amb: Color) -> (l: Self)
        ensures
            l == (Light {
                light_type: LightType::Directional(dir),
                diffuse_color: diffuse,
                specular_color: spec,
                ambient_color: amb,
            }),
    {
        Self::new(LightType::Directional(dir), diffuse, spec, amb)
    }

    pub fn new_point(pos: Vec3, diffuse: Color, spec: Color, amb: Color) -> (l: Self)
        ensures
            l == (Light {
                light_type: LightType::Point(pos),
                diffuse_color: diffuse,
                specular_color: spec,
                ambient_color: amb,
            }),
    {
        Self::new(LightType::Point(pos), diffuse, spec, amb)
    }

    /// The fixed-layout record of this light.
    pub fn to_record(&self) -> (r: LightRecord)
        ensures
            r == light_record(*self),
    {
        let (position, direction, light_type, outer, inner, falloff) = match self.light_type {
            LightType::Directional(dir) => (
                Vec4 { x: 0, y: 0, z: 0, w: UNIT },
                Vec4 { x: dir.x, y: dir.y, z: dir.z, w: 0 },
                0i32,
                0i128,
                0i128,
                0i128,
            ),
            LightType::Point(pos) => (
                Vec4 { x: pos.x, y: pos.y, z: pos.z, w: UNIT },
                Vec4 { x: 0, y: 0, z: 0, w: 0 },
                1i32,
                0i128,
                0i128,
                0i128,
            ),
            LightType::Spot(pos, dir, info) => (
                Vec4 { x: pos.x, y: pos.y, z: pos.z, w: UNIT },
                Vec4 { x: dir.x, y: dir.y, z: dir.z, w: 0 },
                2i32,
                info.outer_radius,
                info.inner_radius,
                info.falloff,
            ),
        };
        LightRecord {
            diffuse_color: self.diffuse_color,
            ambient_color: self.ambient_color,
            specular_color: self.specular_color,
            position,
            direction,
            light_type,
            spotlight_outer: outer,
            spotlight_inner: inner,
            spotlight_falloff: falloff,
        }
    }
}

fn empty_light_record() -> (r: LightRecord)
    ensures
        r == empty_record(),
{
    let black = Color { r: 0, g: 0, b: 0, a: 0 };
    let zero = Vec4 { x: 0, y: 0, z: 0, w: 0 };
    LightRecord {
        diffuse_color: black,
        ambient_color: black,
        specular_color: black,
        position: zero,
        direction: zero,
        light_type: 0,
        spotlight_outer: 0,
        spotlight_inner: 0,
        spotlight_falloff: 0,
    }
}

/// Packs the first `MAX_LIGHTS` lights, in order, into an upload; further
/// lights are dropped and unused slots are zero.
pub fn pack_lights(lights: &[Light]) -> (u: LightUpload)
    ensures
        u.count == if lights@.len() < MAX_LIGHTS {
            lights@.len()
        } else {
            MAX_LIGHTS as nat
        },
        u.records@.len() == MAX_LIGHTS,
        forall|i: int| 0 <= i < u.count ==> #[trigger] u.records@[i] == light_record(lights@[i]),
        forall|i: int| u.count <= i < MAX_LIGHTS ==> #[trigger] u.records@[i] == empty_record(),
{
    let count: usize = if lights.len() < MAX_LIGHTS {
        lights.len()
    } else {
        MAX_LIGHTS
    };
    let mut records: Vec<LightRecord> = Vec::new();
    let mut i: usize = 0;
    while i < MAX_LIGHTS
        invariant
            i <= MAX_LIGHTS,
            count <= MAX_LIGHTS,
            count <= lights@.len(),
            count == lights@.len() || count == MAX_LIGHTS,
            records@.len() == i,
            forall|j: int| 0 <= j < i && j < count ==> #[trigger] records@[j] == light_record(lights@[j]),
            forall|j: int| count <= j < i ==> #[trigger] records@[j] == empty_record(),
        decreases MAX_LIGHTS - i,
    {
        if i < count {
            records.push(lights[i].to_record());
        } else {
            records.push(empty_light_record());
        }
        i = i + 1;
    }
    LightUpload { count: count as i32, records }
}

} // verus!
