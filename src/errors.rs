use vstd::prelude::*;

verus! {

/// Inclusive bounds that an index was expected to lie within.
#[derive(Debug)]
pub struct Limits {
    pub lo: usize,
    pub hi: usize,
}

/// Every way an operation of the engine can fail.
#[derive(Debug)]
pub enum HanabiError {
    /// An integer conversion failed.
    IndexError,
    /// The move, or the query, breaks a rule of the game or addresses
    /// something that does not exist. State is left unchanged.
    InvalidMove(String),
    /// An internal consistency check failed, such as a hint that
    /// contradicts what is already known of a card.
    LogicError(String),
    /// A move was submitted after the game ended.
    GameFinished,
    /// An index lies outside the given bounds.
    OutOfBounds { idx: usize, limits: Limits },
    Unknown,
}

} // verus!
