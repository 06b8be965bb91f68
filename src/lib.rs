//! Loading of triangulated text meshes into compact indexed geometry, exact
//! normalisation of that geometry, and packing of light and material
//! descriptions into fixed-layout records.
//!
//! Every coordinate is held exactly: parsed literals become fixed-point
//! integers, and a mesh keeps its positions as integer numerators over one
//! shared positive denominator, so rescaling and recentering lose nothing.

pub mod color;
pub mod light;
pub mod material;
pub mod mesh;
pub mod mesh_loader;
pub mod normals;
pub mod text;
pub mod vertex;
