//! Player-side data the core owns: the animation states.

use vstd::prelude::*;

verus! {

/// The player's animation states.
#[derive(Clone, Copy, PartialEq, Eq, Structural, Debug)]
pub enum PlayerAnimation {
    Idle,
}

impl PlayerAnimation {
    /// The animation's index in the sprite sheet.
    pub fn as_index(self) -> (r: u8)
        ensures
            r == 0,
    {
        match self {
            PlayerAnimation::Idle => 0,
        }
    }

    /// The animation a sprite-sheet index selects; unknown indices fall back
    /// to idling.
    pub fn from_index(value: u8) -> (r: PlayerAnimation)
        ensures
            r == PlayerAnimation::Idle,
    {
        match value {
            _ => PlayerAnimation::Idle,
        }
    }
}

impl Default for PlayerAnimation {
    fn default() -> (r: PlayerAnimation)
        ensures
            r == PlayerAnimation::Idle,
    {
        PlayerAnimation::Idle
    }
}

} // verus!
