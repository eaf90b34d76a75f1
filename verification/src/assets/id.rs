//! The key space of all assets, by category.

use crate::assets::texture::TextureId;
use vstd::prelude::*;
use vstd::std_specs::convert::FromSpecImpl;

verus! {

/// The key of one asset of any category. Each key belongs to exactly one
/// category; textures are the only category so far.
#[derive(Clone, Copy, Debug, PartialEq, Eq, Hash, Structural)]
pub enum AssetId {
    Texture(TextureId),
}

impl From<TextureId> for AssetId {
    fn from(id: TextureId) -> (asset: Self) {
        AssetId::Texture(id)
    }
}

impl FromSpecImpl<TextureId> for AssetId {
    open spec fn obeys_from_spec() -> bool {
        true
    }

    open spec fn from_spec(id: TextureId) -> Self {
        AssetId::Texture(id)
    }
}

/// What the identifiers of one asset category have in common: each can be
/// turned into an `AssetId`, has a default, and can be copied, compared and
/// hashed.
pub trait AssetIdTrait:
    Into<AssetId>
    + Default
    + core::fmt::Debug
    + Clone
    + Copy
    + PartialEq
    + Eq
    + core::hash::Hash
{
}

impl AssetIdTrait for TextureId {
}

} // verus!
