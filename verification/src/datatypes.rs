//! What an application hands to the renderer: descriptions of meshes,
//! textures, materials and objects, and the renderer's options.

use vstd::prelude::*;
use crate::handle::{MaterialHandle, MeshHandle, TextureHandle};
use crate::math::BoundingSphere;

verus! {

/// Geometry: vertex positions, the indices that connect them into triangles,
/// and the sphere that encloses them.
pub struct Mesh {
    pub vertex_positions: Vec<glam::Vec3>,
    pub indices: Vec<u32>,
    pub bounding_sphere: BoundingSphere,
}

/// How the texels of a texture are stored.
#[derive(Clone, Copy, Debug, PartialEq, Eq, Structural)]
pub enum TextureFormat {
    Rgba8Srgb,
    Rgba8Linear,
}

/// An image.
pub struct Texture {
    pub data: Vec<u8>,
    pub format: TextureFormat,
    pub width: u32,
    pub height: u32,
}

/// The textures that shade a surface; a missing one stands for its default.
#[derive(Clone, Copy, Debug, PartialEq, Eq, Structural)]
pub struct Material {
    pub color: Option<TextureHandle>,
    pub normal: Option<TextureHandle>,
    pub roughness: Option<TextureHandle>,
    pub specular: Option<TextureHandle>,
}

/// An instance of a mesh in the world.
#[derive(Clone, Copy, Debug, PartialEq)]
pub struct Object {
    pub mesh: MeshHandle,
    pub material: MaterialHandle,
    pub transform: glam::Mat4,
}

/// Whether presentation waits for the display.
#[derive(Clone, Copy, Debug, PartialEq, Eq, Structural)]
pub enum VSyncMode {
    On,
    Off,
}

/// Settings of the renderer that can change while it runs.
#[derive(Clone, Copy, Debug, PartialEq, Eq, Structural)]
pub struct RendererOptions {
    pub vsync: VSyncMode,
    pub width: u32,
    pub height: u32,
}

} // verus!
