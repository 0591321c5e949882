//! Rules engine for the cooperative card game Hanabi: cards and what hints
//! reveal about them, the deck, players' hands, moves, and the game state
//! machine that checks and applies moves.

pub mod card;
pub mod errors;
pub mod rules;
pub mod moves;
pub mod player;
mod random;
pub mod game;
