use vstd::prelude::*;

use crate::card::{Color, Number};
use crate::player::PubID;

verus! {

/// What a hint names: a color or a number.
#[derive(Debug, Clone, Copy, PartialEq, Eq, Structural)]
pub enum Hint {
    ColorHint(Color),
    NumberHint(Number),
}

/// A hint and the seat of the player it is given to.
pub type HintForPlayer = (PubID, Hint);

/// A move of the active player.
#[derive(Debug, Clone, Copy)]
pub enum HanabiMove {
    /// Play the card at this index of the player's own hand.
    Play(usize),
    /// Discard the card at this index of the player's own hand.
    Discard(usize),
    /// Give a hint to another player.
    Hint(HintForPlayer),
}

} // verus!
