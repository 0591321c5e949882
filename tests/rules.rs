use hanabi::card::{Card, Color, Number};
use hanabi::errors::HanabiError;
use hanabi::rules::{card_frequencies, cards_to_deal, generate_normal_deck, number_below};

const COLORS: [Color; 5] = [Color::Red, Color::White, Color::Blue, Color::Green, Color::Yellow];
const NUMBERS: [Number; 5] = [Number::One, Number::Two, Number::Three, Number::Four, Number::Five];

fn count(deck: &[&Card], col: Color, num: Number) -> usize {
    deck.iter().filter(|c| c.color() == col && c.number() == num).count()
}

#[test]
fn hand_sizes_by_player_count() {
    assert_eq!(cards_to_deal(2).unwrap(), 5);
    assert_eq!(cards_to_deal(3).unwrap(), 5);
    assert_eq!(cards_to_deal(4).unwrap(), 4);
    assert_eq!(cards_to_deal(5).unwrap(), 4);
    assert!(matches!(cards_to_deal(1), Err(HanabiError::LogicError(_))));
    assert!(matches!(cards_to_deal(6), Err(HanabiError::LogicError(_))));
    assert!(matches!(cards_to_deal(0), Err(HanabiError::LogicError(_))));
}

#[test]
fn frequencies_and_numbers_below() {
    assert_eq!(card_frequencies(&Number::One), 3);
    assert_eq!(card_frequencies(&Number::Two), 2);
    assert_eq!(card_frequencies(&Number::Three), 2);
    assert_eq!(card_frequencies(&Number::Four), 2);
    assert_eq!(card_frequencies(&Number::Five), 1);
    assert_eq!(number_below(&Number::One), None);
    assert_eq!(number_below(&Number::Two), Some(Number::One));
    assert_eq!(number_below(&Number::Five), Some(Number::Four));
}

#[test]
fn normal_deck_has_fifty_cards_with_fixed_counts() {
    let deck = generate_normal_deck();
    assert_eq!(deck.len(), 50);
    let cards: Vec<&Card> = deck.iter().collect();
    for col in COLORS {
        for num in NUMBERS {
            assert_eq!(count(&cards, col, num), card_frequencies(&num) as usize);
        }
    }
}
