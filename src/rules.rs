use vstd::prelude::*;

use crate::card::{freq_of, generate_deck, Card, Number};
use crate::errors::HanabiError;
use std::collections::VecDeque;

verus! {

/// The number of hint tokens at the start, and the most there can be.
pub const MAX_HINTS: u8 = 8;

/// The number of misplays the team survives: the lives at the start.
pub const NUM_BOMBS: u8 = 3;

pub const MAX_PLAYERS: u8 = 5;

pub const MIN_PLAYERS: u8 = 2;

/// Where a game stands: still running, or over with the given score.
#[derive(Debug, Clone, Copy, PartialEq, Eq, Structural)]
pub enum GameResultState {
    Finished(usize),
    InProgress,
}

/// Cards in each hand at the deal: five with two or three players, four with
/// four or five.
pub open spec fn hand_size(num_players: nat) -> nat {
    if num_players <= 3 {
        5
    } else {
        4
    }
}

/// How many copies of each number a color has in the normal deck.
pub open spec fn frequency(n: Number) -> nat {
    match n {
        Number::One => 3,
        Number::Two => 2,
        Number::Three => 2,
        Number::Four => 2,
        Number::Five => 1,
    }
}

/// The number directly below `n`, none below `One`.
pub open spec fn below(n: Number) -> Option<Number> {
    match n {
        Number::One => None,
        Number::Two => Some(Number::One),
        Number::Three => Some(Number::Two),
        Number::Four => Some(Number::Three),
        Number::Five => Some(Number::Four),
    }
}

/// The hand size for a player count; a logic error for a count outside
/// two to five.
pub fn cards_to_deal(num_players: u8) -> (r: Result<u8, HanabiError>)
    ensures
        match r {
            Ok(k) => MIN_PLAYERS <= num_players <= MAX_PLAYERS && k == hand_size(
                num_players as nat,
            ),
            Err(e) => !(MIN_PLAYERS <= num_players <= MAX_PLAYERS) && e is LogicError,
        },
{
    match num_players {
        2 | 3 => Ok(5),
        4 | 5 => Ok(4),
        _ => Err(HanabiError::LogicError("Invalid number of players".to_string())),
    }
}

pub fn card_frequencies(num: &Number) -> (r: u8)
    ensures
        r == frequency(*num),
{
    match num {
        Number::One => 3,
        Number::Two => 2,
        Number::Three => 2,
        Number::Four => 2,
        Number::Five => 1,
    }
}

pub fn number_below(num: &Number) -> (r: Option<Number>)
    ensures
        r == below(*num),
{
    match num {
        Number::One => None,
        Number::Two => Some(Number::One),
        Number::Three => Some(Number::Two),
        Number::Four => Some(Number::Three),
        Number::Five => Some(Number::Four),
    }
}

/// The normal 50-card deck: for each color three Ones, two each of Two,
/// Three and Four, and one Five.
pub fn generate_normal_deck() -> (deck: VecDeque<Card>)
    ensures
        deck@.len() == 50,
        forall|c: Card| #[trigger] deck@.to_multiset().count(c) == frequency(c.number()),
{
    let f = |num: &Number| -> (r: u8)
        ensures
            r == frequency(*num),
        { card_frequencies(num) };
    let deck = generate_deck(f);
    proof {
        assert forall|n: Number| #[trigger] freq_of(f, n) == frequency(n) by {
            assert(f.ensures((&n,), freq_of(f, n) as u8));
        }
        assert(freq_of(f, Number::One) == 3);
        assert(freq_of(f, Number::Two) == 2);
        assert(freq_of(f, Number::Three) == 2);
        assert(freq_of(f, Number::Four) == 2);
        assert(freq_of(f, Number::Five) == 1);
        assert forall|c: Card| #[trigger] deck@.to_multiset().count(c) == frequency(c.number()) by {
            assert(deck@.to_multiset().count(c) == freq_of(f, c.number()));
        }
    }
    deck
}

} // verus!
