//! The sprites that the game can show.

use vstd::prelude::*;

verus! {

/// The key of one sprite.
#[derive(Clone, Copy, Debug, PartialEq, Eq, Hash, Structural)]
pub enum SpriteId {
    /// The sprite that stands for one that is not there; the default.
    MissingNo,
    DoodleLeft,
    DoodleRight,
    BluePlatform,
    GreenPlatform,
    RedPlatform,
    WhitePlatform,
    CrackedPlatform0,
    CrackedPlatform1,
    CrackedPlatform2,
    CrackedPlatform3,
    Mob0,
    Mob1,
    Mob2Left,
    Mob2Right,
}

impl Default for SpriteId {
    fn default() -> (id: Self)
        ensures
            id == SpriteId::MissingNo,
    {
        SpriteId::MissingNo
    }
}

} // verus!
