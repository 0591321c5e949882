use hanabi::card::{Card, CardKnowledge, Color, ColorKnowledge, Number, NumberKnowledge};
use hanabi::errors::HanabiError;
use hanabi::moves::Hint;
use hanabi::player::{generate_players, get_id, get_public_id, Player};

#[test]
fn test_generate_players() {
    for num_players in 2..6 {
        let players = generate_players(num_players);
        assert!(players.len() == num_players);
    }
}

#[test]
fn test_give_hint() {
    let mut player = Player::new(0, rand::random::<u64>());

    player.push_card(Card::new(Color::Red, Number::One));
    player.push_card(Card::new(Color::Red, Number::One));
    player.push_card(Card::new(Color::Red, Number::Two));
    player.push_card(Card::new(Color::White, Number::Five));
    player.push_card(Card::new(Color::Blue, Number::Two));

    // First hint
    player.give_hint(Hint::ColorHint(Color::Red)).unwrap();

    let hand_knowledge: Vec<CardKnowledge> = (0..(player.hand_len()))
        .map(|idx| player.hand_at(idx))
        .map(|(_, knowledge)| knowledge.clone())
        .collect();

    let red = ColorKnowledge::all().without(Color::Red);
    let not_red = ColorKnowledge::from(Color::Red);
    let expected_knowledge = vec![
        CardKnowledge { not_these_colors: red, not_these_numbers: NumberKnowledge::default() },
        CardKnowledge { not_these_colors: red, not_these_numbers: NumberKnowledge::default() },
        CardKnowledge { not_these_colors: red, not_these_numbers: NumberKnowledge::default() },
        CardKnowledge { not_these_colors: not_red, not_these_numbers: NumberKnowledge::default() },
        CardKnowledge { not_these_colors: not_red, not_these_numbers: NumberKnowledge::default() },
    ];
    assert_eq!(hand_knowledge, expected_knowledge);

    // Second hint
    player.give_hint(Hint::NumberHint(Number::Two)).unwrap();

    let hand_knowledge: Vec<CardKnowledge> = (0..(player.hand_len()))
        .map(|idx| player.hand_at(idx))
        .map(|(_, knowledge)| knowledge.clone())
        .collect();

    let two = NumberKnowledge::all().without(Number::Two);
    let not_two = NumberKnowledge::from(Number::Two);
    let expected_knowledge = vec![
        CardKnowledge { not_these_colors: red, not_these_numbers: not_two },
        CardKnowledge { not_these_colors: red, not_these_numbers: not_two },
        CardKnowledge { not_these_colors: red, not_these_numbers: two },
        CardKnowledge { not_these_colors: not_red, not_these_numbers: not_two },
        CardKnowledge { not_these_colors: not_red, not_these_numbers: two },
    ];

    assert_eq!(hand_knowledge, expected_knowledge);
    assert_eq!(player.get_knowledge(), expected_knowledge);
}

#[test]
fn hinting_every_other_color_pins_the_card() {
    for c in [Color::White, Color::Blue, Color::Green] {
        let mut p = Player::new(3, 9);
        p.push_card(Card::new(c, Number::Two));
        for other in [Color::Red, Color::White, Color::Blue, Color::Green, Color::Yellow] {
            if other != c {
                p.give_hint(Hint::ColorHint(other)).unwrap();
            }
        }
        let known = p.get_knowledge();
        assert_eq!(known[0].not_these_colors, ColorKnowledge::all().without(c));
        // Confirming the true color afterwards is consistent and changes nothing.
        p.give_hint(Hint::ColorHint(c)).unwrap();
        assert_eq!(p.get_knowledge(), known);
    }
}

#[test]
fn hand_operations() {
    let mut p = Player::new(0, 42);
    p.push_card(Card::new(Color::Red, Number::One));
    p.push_card(Card::new(Color::Blue, Number::Three));
    p.push_card(Card::new(Color::Green, Number::Five));
    assert_eq!(p.hand_len(), 3);
    assert!(p.any_of_color(Color::Blue));
    assert!(!p.any_of_color(Color::Yellow));
    assert!(p.any_of_number(Number::Five));
    assert!(!p.any_of_number(Number::Two));
    let (card, knowledge) = p.remove_card(1);
    assert_eq!(card, Card::new(Color::Blue, Number::Three));
    assert_eq!(knowledge, CardKnowledge::new());
    assert_eq!(p.hand_len(), 2);
    let view = p.hand_view();
    assert_eq!(view[0].color(), Color::Red);
    assert_eq!(view[1].color(), Color::Green);
    assert_eq!(view[1].number(), Number::Five);
}

#[test]
fn ids_are_looked_up_in_both_directions() {
    let players = vec![Player::new(0, 11), Player::new(1, 22), Player::new(2, 33)];
    assert_eq!(get_public_id(&players, 22).unwrap(), 1);
    assert_eq!(get_id(&players, 2).unwrap(), 33);
    assert!(matches!(get_public_id(&players, 44), Err(HanabiError::InvalidMove(_))));
    assert!(matches!(get_id(&players, 3), Err(HanabiError::InvalidMove(_))));
}

#[test]
fn generated_players_are_seated_in_order() {
    let players = generate_players(4);
    for (i, p) in players.iter().enumerate() {
        assert_eq!(p.public_id as usize, i);
        assert_eq!(p.hand_len(), 0);
    }
}

#[test]
fn generated_uids_are_distinct() {
    for _ in 0..20 {
        let players = generate_players(5);
        for i in 0..players.len() {
            for j in (i + 1)..players.len() {
                assert_ne!(players[i].uid, players[j].uid);
            }
        }
    }
}
