//! Materials and their fixed-layout records.

use vstd::prelude::*;
use crate::color::Color;
use crate::text::UNIT;

verus! {

/// Surface description of an object. A textured material names its two
/// textures by their place in a texture table that the renderer holds.
#[derive(Clone, Copy, Debug, PartialEq, Eq, Structural)]
pub enum Material {
    Untextured {
        diffuse_color: Color,
        ambient_color: Color,
        specular_color: Color,
        /// In fixed-point units.
        specular_power: i128,
    },
    Textured { ambient_color: Color, diffuse_texture: u32, specular_texture: u32 },
}

/// The fixed layout of a material for the rendering stage; the two flags
/// are 1 where a texture supplies the colour and 0 otherwise.
#[derive(Clone, Copy, Debug, PartialEq, Eq, Structural)]
pub struct MaterialRecord {
    pub diffuse_color: Color,
    pub ambient_color: Color,
    pub specular_color: Color,
    pub specular_power: i128,
    pub use_diffuse_texture: i32,
    pub use_specular_texture: i32,
}

/// The record of a material: a textured one carries no colour constants
/// but its ambient colour, has specular power one and both flags set.
pub open spec fn material_record(m: Material) -> MaterialRecord {
    match m {
        Material::Untextured { diffuse_color, ambient_color, specular_color, specular_power } =>
            MaterialRecord {
            diffuse_color,
            ambient_color,
            specular_color,
            specular_power,
            use_diffuse_texture: 0,
            use_specular_texture: 0,
        },
        Material::Textured { ambient_color, .. } => MaterialRecord {
            diffuse_color: Color { r: 0, g: 0, b: 0, a: 255 },
            ambient_color,
            specular_color: Color { r: 0, g: 0, b: 0, a: 255 },
            specular_power: UNIT,
            use_diffuse_texture: 1,
            use_specular_texture: 1,
        },
    }
}

impl Material {
    pub fn to_record(&self) -> (r: MaterialRecord)
        ensures
            r == material_record(*self),
    {
        match *self {
            Material::Untextured { diffuse_color, ambient_color, specular_color, specular_power } =>
                MaterialRecord {
                diffuse_color,
                ambient_color,
                specular_color,
                specular_power,
                use_diffuse_texture: 0,
                use_specular_texture: 0,
            },
            Material::Textured { ambient_color, .. } => MaterialRecord {
                diffuse_color: Color::black(),
                ambient_color,
                specular_color: Color::black(),
                specular_power: UNIT,
                use_diffuse_texture: 1,
                use_specular_texture: 1,
            },
        }
    }
}

} // verus!
