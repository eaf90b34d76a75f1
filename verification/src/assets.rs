//! Asset identifiers, paths, the resolver and the texture cache.

pub mod file;
pub mod id;
pub mod keyed;
pub mod loader;
pub mod sprite;
pub mod texture;

pub use id::AssetId;

use loader::Resolver;
use texture::LoadReport;
use texture::Storage;
use texture::TextureId;
use vstd::prelude::*;

verus! {

/// All asset stores of the display in one place. `R` is the type of a
/// decoded, drawable texture.
pub struct Assets<R> {
    pub texture_storage: Storage<R>,
}

impl<R> Assets<R> {
    /// Makes the stores, the texture cache over `resolver`.
    pub fn new(resolver: Resolver) -> (assets: Self)
        requires
            resolver@.contains_key(AssetId::Texture(TextureId::Missing)),
        ensures
            assets.texture_storage.wf(),
            assets.texture_storage@ == texture::StorageView::<R>::empty(resolver@).requested(
                TextureId::Missing,
            ),
    {
        Assets { texture_storage: Storage::new(resolver) }
    }

    /// Hands the reports of this frame to the texture cache.
    pub fn update(&mut self, reports: Vec<(TextureId, LoadReport<R>)>)
        requires
            old(self).texture_storage.wf(),
        ensures
            final(self).texture_storage.wf(),
            final(self).texture_storage@ == old(self).texture_storage@.swept(reports@),
    {
        self.texture_storage.update(reports);
    }
}

} // verus!
