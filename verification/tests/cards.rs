use blackjack::card::{Card, CardSuit, Deck, Value};

#[test]
fn debug_output_for_card() {
    let card = Card::new(CardSuit::Spades, Value::Two);
    assert_eq!(card.to_text(), "♠Two".to_string());
}

#[test]
fn card_debug_output_for_card() {
    let card = Card::new(CardSuit::Spades, Value::Two);
    let text = format!("{}{:?}", card.get_suit().to_symbol(), card.get_rank());
    assert_eq!(text, "♠Two".to_string());
    assert_eq!(text, card.to_text());
}

#[test]
fn every_rank_has_its_points() {
    let expected = [
        (Value::Two, 2),
        (Value::Three, 3),
        (Value::Four, 4),
        (Value::Five, 5),
        (Value::Six, 6),
        (Value::Seven, 7),
        (Value::Eight, 8),
        (Value::Nine, 9),
        (Value::Ten, 10),
        (Value::Jack, 10),
        (Value::Queen, 10),
        (Value::King, 10),
        (Value::Ace, 11),
    ];
    for (rank, points) in expected {
        assert_eq!(rank.value(), points);
        assert_eq!(Card::new(CardSuit::Clubs, rank).get_value(), points);
    }
}

#[test]
fn every_rank_has_its_name() {
    assert_eq!(Value::Two.to_name(), "Two");
    assert_eq!(Value::Three.to_name(), "Three");
    assert_eq!(Value::Four.to_name(), "Four");
    assert_eq!(Value::Five.to_name(), "Five");
    assert_eq!(Value::Six.to_name(), "Six");
    assert_eq!(Value::Seven.to_name(), "Seven");
    assert_eq!(Value::Eight.to_name(), "Eight");
    assert_eq!(Value::Nine.to_name(), "Nine");
    assert_eq!(Value::Ten.to_name(), "Ten");
    assert_eq!(Value::Jack.to_name(), "Jack");
    assert_eq!(Value::Queen.to_name(), "Queen");
    assert_eq!(Value::King.to_name(), "King");
    assert_eq!(Value::Ace.to_name(), "Ace");
}

#[test]
fn every_suit_has_its_symbol() {
    assert_eq!(CardSuit::Spades.to_symbol(), "♠");
    assert_eq!(CardSuit::Hearts.to_symbol(), "❤️");
    assert_eq!(CardSuit::Diamonds.to_symbol(), "♦");
    assert_eq!(CardSuit::Clubs.to_symbol(), "♣");
}

#[test]
fn card_text_joins_symbol_and_name() {
    assert_eq!(Card::new(CardSuit::Hearts, Value::Queen).to_text(), "❤️Queen");
    assert_eq!(Card::new(CardSuit::Diamonds, Value::Ace).to_text(), "♦Ace");
    assert_eq!(Card::new(CardSuit::Clubs, Value::Ten).to_text(), "♣Ten");
}

#[test]
fn faces_and_aces() {
    let jack = Card::new(CardSuit::Spades, Value::Jack);
    let queen = Card::new(CardSuit::Spades, Value::Queen);
    let king = Card::new(CardSuit::Spades, Value::King);
    let ace = Card::new(CardSuit::Spades, Value::Ace);
    let ten = Card::new(CardSuit::Spades, Value::Ten);
    assert!(jack.is_face() && queen.is_face() && king.is_face() && ace.is_face());
    assert!(!ten.is_face());
    assert!(ace.is_ace());
    assert!(!king.is_ace() && !ten.is_ace());
}

#[test]
fn card_keeps_suit_and_rank() {
    let card = Card::new(CardSuit::Diamonds, Value::Seven);
    assert_eq!(card.get_suit(), CardSuit::Diamonds);
    assert_eq!(card.get_rank(), Value::Seven);
    assert_eq!(card, Card::new(CardSuit::Diamonds, Value::Seven));
    assert_ne!(card, Card::new(CardSuit::Hearts, Value::Seven));
    assert_ne!(card, Card::new(CardSuit::Diamonds, Value::Eight));
}

#[test]
fn deck_holds_cards_in_order() {
    let deck = Deck {
        cards: vec![
            Card::new(CardSuit::Hearts, Value::Ace),
            Card::new(CardSuit::Clubs, Value::Two),
        ],
    };
    assert_eq!(deck.cards.len(), 2);
    assert_eq!(deck.cards[0], Card::new(CardSuit::Hearts, Value::Ace));
    assert_eq!(deck.cards[1], Card::new(CardSuit::Clubs, Value::Two));
}
