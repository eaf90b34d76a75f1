//! Identifiers of textures.

use crate::render::Color;
use vstd::prelude::*;

verus! {

/// What a generated texture looks like: a square of `size` pixels a side,
/// filled with `color`. Two values with the same fields name the same texture.
#[derive(Clone, Copy, Debug, PartialEq, Eq, Hash, Structural)]
pub struct DynamicTextureParams {
    pub size: u16,
    pub color: Color,
}

impl Default for DynamicTextureParams {
    /// A single opaque white pixel.
    fn default() -> (params: Self)
        ensures
            params == DynamicTextureParams::canonical(),
    {
        DynamicTextureParams { size: 1, color: Color { r: 255, g: 255, b: 255, a: 255 } }
    }
}

impl DynamicTextureParams {
    /// The parameters of the texture of last resort: one opaque white pixel.
    pub open spec fn canonical() -> Self {
        DynamicTextureParams { size: 1, color: Color { r: 255, g: 255, b: 255, a: 255 } }
    }
}

/// The key of one texture: a named static asset, a generated texture, or the
/// placeholder that stands for a texture that could not be had.
#[derive(Clone, Copy, Debug, PartialEq, Eq, Hash, Structural)]
pub enum TextureId {
    DoodleLeft,
    DoodleRight,
    BluePlatform,
    GreenPlatform,
    RedPlatform,
    WhitePlatform,
    CrackedPlatform0,
    CrackedPlatform1,
    CrackedPlatform2,
    CrackedPlatform3,
    Mob0,
    Mob1,
    Mob2Left,
    Mob2Right,
    /// A texture generated from its parameters; it is never loaded from disk.
    Dynamic(DynamicTextureParams),
    /// The placeholder, and the default identifier.
    Missing,
}

impl Default for TextureId {
    fn default() -> (id: Self)
        ensures
            id == TextureId::Missing,
    {
        TextureId::Missing
    }
}

} // verus!
