use hanabi::card::{
    generate_deck, not_this_color, not_this_number, this_color, this_number, Card, CardKnowledge,
    Color, ColorKnowledge, Number, NumberKnowledge,
};
use hanabi::errors::HanabiError;

#[test]
fn test_this_color() {
    {
        let mut card_knowledge = CardKnowledge::new();

        card_knowledge = this_color(card_knowledge, Color::Red).unwrap();

        assert_eq!(
            card_knowledge.not_these_colors,
            ColorKnowledge::from(Color::White)
                .with(Color::Blue)
                .with(Color::Yellow)
                .with(Color::Green)
        );
    }
    {
        let mut card_knowledge = CardKnowledge::new();
        card_knowledge = this_color(card_knowledge, Color::Green).unwrap();
        let err = this_color(card_knowledge, Color::Blue);

        assert!(err.is_err());
    }
}

#[test]
fn test_not_this_color() {
    let mut card_knowledge = CardKnowledge::new();

    // First color is fine.
    card_knowledge = not_this_color(card_knowledge, Color::Green).unwrap();
    assert_eq!(card_knowledge.not_these_colors, ColorKnowledge::from(Color::Green));

    // Second color is fine
    card_knowledge = not_this_color(card_knowledge, Color::Red).unwrap();
    assert_eq!(
        card_knowledge.not_these_colors,
        ColorKnowledge::from(Color::Green).with(Color::Red)
    );

    // Third and Fourth color is fine
    card_knowledge = not_this_color(card_knowledge, Color::Blue).unwrap();
    card_knowledge = not_this_color(card_knowledge, Color::White).unwrap();
    assert_eq!(
        card_knowledge.not_these_colors,
        ColorKnowledge::from(Color::Green)
            .with(Color::Red)
            .with(Color::Blue)
            .with(Color::White)
    );

    // The same clue may be given twice.
    card_knowledge = not_this_color(card_knowledge, Color::White).unwrap();

    // A card cannot be none of the colors.
    let err = not_this_color(card_knowledge, Color::Yellow);
    assert!(err.is_err());
}

#[test]
fn test_this_number() {
    {
        let mut card_knowledge = CardKnowledge::new();

        card_knowledge = this_number(card_knowledge, Number::Two).unwrap();

        assert_eq!(
            card_knowledge.not_these_numbers,
            NumberKnowledge::from(Number::One)
                .with(Number::Three)
                .with(Number::Four)
                .with(Number::Five)
        );
    }
    {
        let mut card_knowledge = CardKnowledge::new();
        card_knowledge = this_number(card_knowledge, Number::Three).unwrap();
        let err = this_number(card_knowledge, Number::Four);

        assert!(err.is_err());
    }
}

#[test]
fn not_this_number_rejects_the_last_number() {
    let mut k = CardKnowledge::new();
    for n in [Number::One, Number::Two, Number::Three, Number::Four] {
        k = not_this_number(k, n).unwrap();
    }
    assert_eq!(
        k.not_these_numbers,
        NumberKnowledge::all().without(Number::Five)
    );
    assert!(matches!(
        not_this_number(k, Number::Five),
        Err(HanabiError::LogicError(_))
    ));
}

#[test]
fn confirming_a_color_keeps_earlier_exclusions() {
    // Ruling out Red and then confirming Blue leaves everything but Blue
    // ruled out: the set only grows.
    let k = not_this_color(CardKnowledge::new(), Color::Red).unwrap();
    let k = this_color(k, Color::Blue).unwrap();
    assert_eq!(k.not_these_colors, ColorKnowledge::all().without(Color::Blue));
    assert!(k.not_these_colors.contains(Color::Red));
    assert_eq!(k.not_these_numbers, NumberKnowledge::none());
}

#[test]
fn confirming_an_excluded_color_is_a_logic_error() {
    let k = not_this_color(CardKnowledge::new(), Color::Yellow).unwrap();
    assert!(matches!(
        this_color(k, Color::Yellow),
        Err(HanabiError::LogicError(_))
    ));
}

#[test]
fn knowledge_sets_basics() {
    assert!(ColorKnowledge::all().is_all());
    assert!(!ColorKnowledge::all().without(Color::White).is_all());
    assert!(!ColorKnowledge::none().contains(Color::Red));
    assert_eq!(ColorKnowledge::default(), ColorKnowledge::none());
    assert_eq!(CardKnowledge::default(), CardKnowledge::new());
    assert_eq!(ColorKnowledge::only(Color::Blue), ColorKnowledge::from(Color::Blue));
    assert!(NumberKnowledge::only(Number::Four).contains(Number::Four));
    assert!(!NumberKnowledge::only(Number::Four).contains(Number::Three));
}

#[test]
fn card_and_view_expose_color_and_number() {
    let c = Card::new(Color::Green, Number::Three);
    assert_eq!(c.color(), Color::Green);
    assert_eq!(c.number(), Number::Three);
    let v = c.view();
    assert_eq!(v.color(), Color::Green);
    assert_eq!(v.number(), Number::Three);
}

#[test]
fn generate_deck_follows_the_frequency_function() {
    let deck = generate_deck(|n: &Number| if *n == Number::One { 2 } else { 0 });
    assert_eq!(deck.len(), 10);
    assert!(deck.iter().all(|c| c.number() == Number::One));
    for col in [Color::Red, Color::White, Color::Blue, Color::Green, Color::Yellow] {
        assert_eq!(deck.iter().filter(|c| c.color() == col).count(), 2);
    }
}
