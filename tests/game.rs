use std::collections::VecDeque;

use hanabi::card::{Card, Color, Number};
use hanabi::errors::HanabiError;
use hanabi::game::{shuffle_deck, Game};
use hanabi::moves::{HanabiMove, Hint};
use hanabi::player::Player;
use hanabi::rules::{generate_normal_deck, GameResultState};

use Color::{Blue, Green, Red, White, Yellow};
use Number::{Five, Four, One, Three, Two};

const FIRST_UID: u64 = 1001;
const SECOND_UID: u64 = 2002;

/// A two-player game whose first seat is dealt `hand0`, the second `hand1`,
/// and whose draw pile then holds `pile` in order.
fn two_player_game(hand0: [(Color, Number); 5], hand1: [(Color, Number); 5], pile: &[(Color, Number)]) -> Game {
    let mut deck = VecDeque::new();
    for i in 0..5 {
        deck.push_back(Card::new(hand0[i].0, hand0[i].1));
        deck.push_back(Card::new(hand1[i].0, hand1[i].1));
    }
    for (c, n) in pile {
        deck.push_back(Card::new(*c, *n));
    }
    Game::with_players(vec![Player::new(0, FIRST_UID), Player::new(1, SECOND_UID)], deck)
}

fn hand_len(game: &Game, seat: u8) -> usize {
    game.get_player_knowledge(seat).unwrap().len()
}

fn total_cards(game: &Game, players: u8) -> usize {
    let hands: usize = (0..players).map(|p| hand_len(game, p)).sum();
    game.draw_pile_len() + game.discard.len() + game.board.len() + hands
}

fn active_seat(game: &Game, players: u8) -> u8 {
    (0..players).find(|p| game.is_players_turn(*p)).unwrap()
}

fn stacks_are_runs(game: &Game) -> bool {
    [Red, White, Blue, Green, Yellow].iter().all(|col| {
        let ranks: Vec<Number> = game.board.iter().filter(|c| c.color() == *col).map(|c| c.number()).collect();
        let expected = [One, Two, Three, Four, Five];
        ranks.len() <= 5 && ranks.iter().zip(expected.iter()).all(|(a, b)| a == b)
    })
}

const FILLER: [(Color, Number); 5] = [(White, Two), (White, Three), (Green, Four), (Green, Five), (Yellow, Three)];

#[test]
fn new_game_with_three_players_deals_five_each() {
    let game = Game::new(3, generate_normal_deck());
    for seat in 0..3 {
        assert_eq!(hand_len(&game, seat), 5);
    }
    assert_eq!(game.draw_pile_len(), 35);
    assert_eq!(game.hints, 8);
    assert_eq!(game.bombs, 3);
    assert_eq!(game.finished(), GameResultState::InProgress);
    assert!(game.is_players_turn(0));
    assert!(game.get_player_knowledge(3).is_err());
}

#[test]
fn new_game_with_four_players_deals_four_each() {
    let game = Game::new(4, generate_normal_deck());
    for seat in 0..4 {
        assert_eq!(hand_len(&game, seat), 4);
    }
    assert_eq!(game.draw_pile_len(), 34);
}

#[test]
fn playing_a_one_on_an_empty_stack() {
    let mut game = two_player_game(
        [(Red, One), (Blue, Two), (Green, Two), (Yellow, Four), (White, Five)],
        FILLER,
        &[(Blue, One), (Blue, Three)],
    );
    assert!(game.play_move(HanabiMove::Play(0), FIRST_UID).is_ok());
    assert_eq!(game.board.len(), 1);
    assert_eq!(game.board.iter().filter(|c| c.color() == Red).count(), 1);
    assert_eq!(hand_len(&game, 0), 5);
    assert_eq!(game.draw_pile_len(), 1);
    assert!(game.is_players_turn(1));
    // The drawn card went to the end of the hand.
    let seen = game.get_player_cards(SECOND_UID, 0).unwrap();
    assert_eq!(seen[4].color(), Blue);
    assert_eq!(seen[4].number(), One);
    assert_eq!(seen[0].color(), Blue);
    assert_eq!(seen[0].number(), Two);
}

#[test]
fn misplay_costs_a_life_and_still_succeeds() {
    let mut game = two_player_game(
        [(Blue, One), (Blue, Four), (Green, Two), (Green, Three), (Yellow, Five)],
        FILLER,
        &[(Red, One), (Red, Two), (Red, Three)],
    );
    game.play_move(HanabiMove::Play(0), FIRST_UID).unwrap();
    game.play_move(HanabiMove::Hint((0, Hint::ColorHint(Blue))), SECOND_UID).unwrap();
    assert_eq!(game.hints, 7);
    // Blue Four is now first in the hand, on a Blue stack topped by One.
    assert!(game.play_move(HanabiMove::Play(0), FIRST_UID).is_ok());
    assert_eq!(game.bombs, 2);
    assert_eq!(game.discard.len(), 1);
    assert_eq!(game.discard[0], Card::new(Blue, Four));
    assert_eq!(game.board.len(), 1);
}

#[test]
fn hint_for_a_color_the_target_lacks_is_invalid() {
    let mut game = two_player_game(
        [(Red, One), (Blue, Two), (Green, Two), (Yellow, Four), (White, Five)],
        [(Red, Two), (Red, Three), (White, One), (Blue, One), (Green, One)],
        &[(Blue, Three)],
    );
    let r = game.play_move(HanabiMove::Hint((1, Hint::ColorHint(Yellow))), FIRST_UID);
    assert!(matches!(r, Err(HanabiError::InvalidMove(_))));
    assert_eq!(game.hints, 8);
    assert!(game.is_players_turn(0));
    let r = game.play_move(HanabiMove::Hint((1, Hint::NumberHint(Five))), FIRST_UID);
    assert!(matches!(r, Err(HanabiError::InvalidMove(_))));
    let r = game.play_move(HanabiMove::Hint((2, Hint::ColorHint(Red))), FIRST_UID);
    assert!(matches!(r, Err(HanabiError::InvalidMove(_))));
}

#[test]
fn no_lives_left_ends_the_game() {
    let mut game = two_player_game(
        [(Red, One), (Red, Three), (Green, Two), (Green, Three), (Yellow, Five)],
        [(Blue, Three), (Blue, Four), (White, Two), (White, Three), (Yellow, Four)],
        &[(Red, Five), (Red, Five), (Red, Five), (Red, Five)],
    );
    game.play_move(HanabiMove::Play(0), FIRST_UID).unwrap(); // Red One
    game.play_move(HanabiMove::Play(0), SECOND_UID).unwrap(); // Blue Three: misplay
    game.play_move(HanabiMove::Play(0), FIRST_UID).unwrap(); // Red Three: misplay
    assert_eq!(game.finished(), GameResultState::InProgress);
    game.play_move(HanabiMove::Play(0), SECOND_UID).unwrap(); // Blue Four: misplay
    assert_eq!(game.bombs, 0);
    assert_eq!(game.finished(), GameResultState::Finished(1));
    let r = game.play_move(HanabiMove::Play(0), FIRST_UID);
    assert!(matches!(r, Err(HanabiError::GameFinished)));
    let r = game.play_move(HanabiMove::Play(0), SECOND_UID);
    assert!(matches!(r, Err(HanabiError::GameFinished)));
}

#[test]
fn cards_are_conserved_over_a_whole_game() {
    let mut game = Game::new(3, generate_normal_deck());
    assert_eq!(total_cards(&game, 3), 50);
    let mut turns = 0;
    while game.finished() == GameResultState::InProgress && turns < 100 {
        let seat = active_seat(&game, 3);
        let uid = game.uid_of(seat).unwrap();
        game.play_move(HanabiMove::Play(0), uid).unwrap();
        assert_eq!(total_cards(&game, 3), 50);
        assert!(stacks_are_runs(&game));
        turns += 1;
    }
    assert!(matches!(game.finished(), GameResultState::Finished(_)));
}

#[test]
fn moves_out_of_turn_change_nothing() {
    let mut game = two_player_game(
        [(Red, One), (Blue, Two), (Green, Two), (Yellow, Four), (White, Five)],
        FILLER,
        &[(Blue, One)],
    );
    let knowledge0 = game.get_player_knowledge(0).unwrap();
    for mv in [HanabiMove::Play(0), HanabiMove::Discard(0), HanabiMove::Hint((0, Hint::ColorHint(Red)))] {
        let r = game.play_move(mv, SECOND_UID);
        assert!(matches!(r, Err(HanabiError::InvalidMove(_))));
        assert_eq!(game.hints, 8);
        assert_eq!(game.bombs, 3);
        assert_eq!(game.board.len(), 0);
        assert_eq!(game.discard.len(), 0);
        assert_eq!(game.draw_pile_len(), 1);
        assert_eq!(hand_len(&game, 1), 5);
        assert_eq!(game.get_player_knowledge(0).unwrap(), knowledge0);
        assert!(game.is_players_turn(0));
    }
    let r = game.play_move(HanabiMove::Play(0), 99);
    assert!(matches!(r, Err(HanabiError::InvalidMove(_))));
}

#[test]
fn hint_tokens_are_spent_and_regained() {
    let mut game = two_player_game(
        [(Red, One), (Blue, Two), (Green, Two), (Yellow, Four), (White, Five)],
        FILLER,
        &[(Blue, One), (Blue, Three), (Red, Four)],
    );
    // Discarding with every token in hand is not allowed.
    let r = game.play_move(HanabiMove::Discard(0), FIRST_UID);
    assert!(matches!(r, Err(HanabiError::InvalidMove(_))));
    game.play_move(HanabiMove::Hint((1, Hint::ColorHint(White))), FIRST_UID).unwrap();
    assert_eq!(game.hints, 7);
    let k = game.get_player_knowledge(1).unwrap();
    assert!(!k[0].not_these_colors.contains(White));
    assert!(k[0].not_these_colors.contains(Red));
    assert!(k[2].not_these_colors.contains(White));
    game.play_move(HanabiMove::Discard(2), SECOND_UID).unwrap();
    assert_eq!(game.hints, 8);
    assert_eq!(game.discard[0], Card::new(Green, Four));
    game.play_move(HanabiMove::Play(0), FIRST_UID).unwrap();
    assert_eq!(game.hints, 8);
}

#[test]
fn stacks_grow_only_in_order() {
    let mut game = two_player_game(
        [(Red, Two), (Red, One), (Red, Two), (Yellow, Four), (White, Five)],
        FILLER,
        &[(Blue, One), (Blue, Three), (Red, Four), (Red, Five)],
    );
    // Red Two before Red One is a misplay.
    game.play_move(HanabiMove::Play(0), FIRST_UID).unwrap();
    assert_eq!(game.board.len(), 0);
    assert_eq!(game.bombs, 2);
    game.play_move(HanabiMove::Hint((0, Hint::NumberHint(One))), SECOND_UID).unwrap();
    game.play_move(HanabiMove::Play(0), FIRST_UID).unwrap(); // Red One
    game.play_move(HanabiMove::Hint((0, Hint::NumberHint(Two))), SECOND_UID).unwrap();
    game.play_move(HanabiMove::Play(0), FIRST_UID).unwrap(); // Red Two
    assert_eq!(game.board, vec![Card::new(Red, One), Card::new(Red, Two)]);
    assert_eq!(game.bombs, 2);
    assert!(stacks_are_runs(&game));
}

#[test]
fn shuffle_keeps_every_card() {
    let deck = generate_normal_deck();
    let before: Vec<(Color, Number)> = deck.iter().map(|c| (c.color(), c.number())).collect();
    let shuffled = shuffle_deck(deck);
    let after: Vec<(Color, Number)> = shuffled.iter().map(|c| (c.color(), c.number())).collect();
    assert_eq!(after.len(), before.len());
    for card in &before {
        let a = before.iter().filter(|c| *c == card).count();
        let b = after.iter().filter(|c| *c == card).count();
        assert_eq!(a, b);
    }
    // Fifty cards come back in their original order with negligible chance.
    let again: Vec<(Color, Number)> = shuffle_deck(generate_normal_deck())
        .iter()
        .map(|c| (c.color(), c.number()))
        .collect();
    assert!(after != before || again != before);
}

#[test]
fn game_ends_a_round_after_the_pile_runs_out() {
    let mut game = two_player_game(
        [(Red, One), (Blue, Two), (Green, Two), (Yellow, Four), (White, Five)],
        FILLER,
        &[(Blue, One)],
    );
    game.play_move(HanabiMove::Play(0), FIRST_UID).unwrap(); // draws the last card
    assert_eq!(game.draw_pile_len(), 0);
    assert_eq!(game.turns_since_last_pickup, Some(0));
    game.play_move(HanabiMove::Hint((0, Hint::ColorHint(Blue))), SECOND_UID).unwrap();
    assert_eq!(game.finished(), GameResultState::InProgress);
    game.play_move(HanabiMove::Play(4), FIRST_UID).unwrap(); // Blue One
    assert_eq!(hand_len(&game, 0), 4);
    assert_eq!(game.finished(), GameResultState::Finished(2));
}

#[test]
fn looking_at_hands() {
    let game = two_player_game(
        [(Red, One), (Blue, Two), (Green, Two), (Yellow, Four), (White, Five)],
        FILLER,
        &[],
    );
    let seen = game.get_player_cards(FIRST_UID, 1).unwrap();
    assert_eq!(seen.len(), 5);
    assert_eq!(seen[3].color(), Green);
    assert_eq!(seen[3].number(), Five);
    assert!(matches!(game.get_player_cards(FIRST_UID, 0), Err(HanabiError::InvalidMove(_))));
    assert!(matches!(game.get_player_cards(77, 1), Err(HanabiError::InvalidMove(_))));
    assert!(matches!(game.get_player_cards(SECOND_UID, 2), Err(HanabiError::InvalidMove(_))));
    assert_eq!(game.uid_of(1).unwrap(), SECOND_UID);
    assert!(matches!(game.uid_of(2), Err(HanabiError::InvalidMove(_))));
    assert!(matches!(game.get_player_knowledge(5), Err(HanabiError::InvalidMove(_))));
}

#[test]
fn playing_past_the_hand_is_invalid() {
    let mut game = two_player_game(
        [(Red, One), (Blue, Two), (Green, Two), (Yellow, Four), (White, Five)],
        FILLER,
        &[(Blue, One)],
    );
    let r = game.play_move(HanabiMove::Play(5), FIRST_UID);
    assert!(matches!(r, Err(HanabiError::InvalidMove(_))));
    assert_eq!(game.bombs, 3);
}
