use poker_banting_server::game::card::{create_deck, shuffle, sort_cards, Card, Rank, Suit};

#[test]
fn test_rank_ordering() {
    let ranks = [
        Rank::Three, Rank::Four, Rank::Five, Rank::Six, Rank::Seven,
        Rank::Eight, Rank::Nine, Rank::Ten, Rank::Jack, Rank::Queen,
        Rank::King, Rank::Ace, Rank::Two,
    ];
    for i in 0..ranks.len() {
        assert_eq!(Card::new(ranks[i], Suit::Diamonds).rank_index(), i);
    }
}

#[test]
fn test_suit_ordering() {
    let suits = [Suit::Diamonds, Suit::Clubs, Suit::Hearts, Suit::Spades];
    for i in 0..suits.len() {
        assert_eq!(Card::new(Rank::Three, suits[i]).suit_index(), i);
    }
}

#[test]
fn test_create_deck_count() {
    let deck = create_deck();
    assert_eq!(deck.len(), 52);
}

#[test]
fn test_create_deck_unique_cards() {
    let deck = create_deck();
    let unique: std::collections::HashSet<_> = deck.iter().cloned().collect();
    assert_eq!(unique.len(), 52);
}

#[test]
fn test_shuffle_preserves_count() {
    let mut deck = create_deck();
    shuffle(&mut deck);
    assert_eq!(deck.len(), 52);
}

#[test]
fn test_sort_cards_basic() {
    let mut cards = vec![
        Card::new(Rank::King, Suit::Diamonds),
        Card::new(Rank::Three, Suit::Diamonds),
        Card::new(Rank::Ace, Suit::Diamonds),
    ];
    sort_cards(&mut cards);
    assert_eq!(cards[0].rank, Rank::Three);
    assert_eq!(cards[1].rank, Rank::King);
    assert_eq!(cards[2].rank, Rank::Ace);
}

#[test]
fn test_card_label() {
    let card = Card::new(Rank::Ten, Suit::Diamonds);
    assert_eq!(card.label(), "10♦");
}

#[test]
fn test_card_display() {
    let card = Card::new(Rank::Jack, Suit::Hearts);
    assert_eq!(card.to_string(), "J♥");
}

#[test]
fn test_rank_display() {
    assert_eq!(Rank::Three.to_string(), "3");
    assert_eq!(Rank::Ten.to_string(), "10");
    assert_eq!(Rank::Jack.to_string(), "J");
    assert_eq!(Rank::Queen.to_string(), "Q");
    assert_eq!(Rank::King.to_string(), "K");
    assert_eq!(Rank::Ace.to_string(), "A");
    assert_eq!(Rank::Two.to_string(), "2");
}

#[test]
fn test_suit_display() {
    assert_eq!(Suit::Diamonds.to_string(), "♦");
    assert_eq!(Suit::Clubs.to_string(), "♣");
    assert_eq!(Suit::Hearts.to_string(), "♥");
    assert_eq!(Suit::Spades.to_string(), "♠");
}

#[test]
fn test_deck_has_all_ranks() {
    let deck = create_deck();
    for rank in [
        Rank::Three, Rank::Four, Rank::Five, Rank::Six, Rank::Seven,
        Rank::Eight, Rank::Nine, Rank::Ten, Rank::Jack, Rank::Queen,
        Rank::King, Rank::Ace, Rank::Two,
    ] {
        assert_eq!(
            deck.iter().filter(|c| c.rank == rank).count(),
            4,
            "Rank {:?} should appear 4 times",
            rank
        );
    }
}

#[test]
fn test_deck_has_all_suits() {
    let deck = create_deck();
    for suit in [Suit::Diamonds, Suit::Clubs, Suit::Hearts, Suit::Spades] {
        assert_eq!(
            deck.iter().filter(|c| c.suit == suit).count(),
            13,
            "Suit {:?} should appear 13 times",
            suit
        );
    }
}

#[test]
fn test_sort_stable() {
    let mut cards = vec![
        Card::new(Rank::Three, Suit::Diamonds),
        Card::new(Rank::Three, Suit::Clubs),
        Card::new(Rank::Three, Suit::Hearts),
        Card::new(Rank::Three, Suit::Spades),
    ];
    sort_cards(&mut cards);
    assert_eq!(cards[0].suit, Suit::Diamonds);
    assert_eq!(cards[1].suit, Suit::Clubs);
    assert_eq!(cards[2].suit, Suit::Hearts);
    assert_eq!(cards[3].suit, Suit::Spades);
}

#[test]
fn test_shuffle_randomizes() {
    let mut deck1 = create_deck();
    let mut deck2 = create_deck();
    shuffle(&mut deck1);
    shuffle(&mut deck2);
    // Highly unlikely they'd be identical
    assert_ne!(deck1, deck2);
}
