//! Identifiers of sprites.

pub mod sprite_id;

pub use sprite_id::SpriteId;
