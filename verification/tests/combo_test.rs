use poker_banting_server::game::card::{Card, Rank, Suit};
use poker_banting_server::game::combo::{compare_combos, detect_combo, is_straight, ComboType};

fn card(rank: Rank, suit: Suit) -> Card {
    Card::new(rank, suit)
}

#[test]
fn test_straight_min_3_cards() {
    assert!(is_straight(&[0, 1, 2])); // 3-4-5
}

#[test]
fn test_straight_5_cards() {
    assert!(is_straight(&[0, 1, 2, 3, 4])); // 3-4-5-6-7
}

#[test]
fn test_straight_letters() {
    assert!(is_straight(&[7, 8, 9])); // 10-J-Q
}

#[test]
fn test_straight_10_j_q_k() {
    assert!(is_straight(&[7, 8, 9, 10])); // 10-J-Q-K
}

#[test]
fn test_straight_10_j_q_k_a() {
    assert!(is_straight(&[7, 8, 9, 10, 11])); // 10-J-Q-K-A
}

#[test]
fn test_straight_no_two() {
    assert!(!is_straight(&[9, 10, 11, 12])); // Q-K-A-2
}

#[test]
fn test_straight_mixed_invalid() {
    assert!(!is_straight(&[5, 6, 7])); // 9-10-J — mixed number/letter
}

#[test]
fn test_straight_not_consecutive() {
    assert!(!is_straight(&[0, 2, 3])); // 3-5-6
}

#[test]
fn test_straight_too_few() {
    assert!(!is_straight(&[0, 1]));
}

#[test]
fn test_straight_duplicates() {
    assert!(!is_straight(&[0, 0, 1, 2]));
}

#[test]
fn test_straight_single() {
    assert!(!is_straight(&[0]));
}

#[test]
fn test_single() {
    let c = card(Rank::Three, Suit::Diamonds);
    let combo = detect_combo(&[c]).unwrap();
    assert_eq!(combo.combo_type, ComboType::Single);
}

#[test]
fn test_pair() {
    let cards = vec![card(Rank::Three, Suit::Diamonds), card(Rank::Three, Suit::Clubs)];
    let combo = detect_combo(&cards).unwrap();
    assert_eq!(combo.combo_type, ComboType::Pair);
}

#[test]
fn test_triple() {
    let cards = vec![
        card(Rank::Three, Suit::Diamonds),
        card(Rank::Three, Suit::Clubs),
        card(Rank::Three, Suit::Hearts),
    ];
    let combo = detect_combo(&cards).unwrap();
    assert_eq!(combo.combo_type, ComboType::Triple);
}

#[test]
fn test_straight_3_card() {
    let cards = vec![
        card(Rank::Three, Suit::Diamonds),
        card(Rank::Four, Suit::Diamonds),
        card(Rank::Five, Suit::Diamonds),
    ];
    let combo = detect_combo(&cards).unwrap();
    assert_eq!(combo.combo_type, ComboType::Straight);
}

#[test]
fn test_straight_4_card() {
    let cards = vec![
        card(Rank::Three, Suit::Diamonds),
        card(Rank::Four, Suit::Diamonds),
        card(Rank::Five, Suit::Diamonds),
        card(Rank::Six, Suit::Diamonds),
    ];
    let combo = detect_combo(&cards).unwrap();
    assert_eq!(combo.combo_type, ComboType::Straight);
}

#[test]
fn test_straight_5_card() {
    let cards = vec![
        card(Rank::Three, Suit::Diamonds),
        card(Rank::Four, Suit::Diamonds),
        card(Rank::Five, Suit::Diamonds),
        card(Rank::Six, Suit::Diamonds),
        card(Rank::Seven, Suit::Diamonds),
    ];
    let combo = detect_combo(&cards).unwrap();
    assert_eq!(combo.combo_type, ComboType::Straight);
}

#[test]
fn test_straight_mixed_suit_invalid() {
    let cards = vec![
        card(Rank::Three, Suit::Diamonds),
        card(Rank::Four, Suit::Clubs),
        card(Rank::Five, Suit::Diamonds),
    ];
    assert!(detect_combo(&cards).is_none());
}

#[test]
fn test_full_house() {
    let cards = vec![
        card(Rank::Three, Suit::Diamonds),
        card(Rank::Three, Suit::Clubs),
        card(Rank::Three, Suit::Hearts),
        card(Rank::Seven, Suit::Diamonds),
        card(Rank::Seven, Suit::Clubs),
    ];
    let combo = detect_combo(&cards).unwrap();
    assert_eq!(combo.combo_type, ComboType::FullHouse);
}

#[test]
fn test_four_kind() {
    let cards = vec![
        card(Rank::King, Suit::Diamonds),
        card(Rank::King, Suit::Clubs),
        card(Rank::King, Suit::Hearts),
        card(Rank::King, Suit::Spades),
        card(Rank::Seven, Suit::Diamonds),
    ];
    let combo = detect_combo(&cards).unwrap();
    assert_eq!(combo.combo_type, ComboType::FourKind);
}

#[test]
fn test_invalid_combo_2_cards_different() {
    let cards = vec![card(Rank::Three, Suit::Diamonds), card(Rank::Four, Suit::Diamonds)];
    assert!(detect_combo(&cards).is_none());
}

#[test]
fn test_invalid_combo_4_cards_no_straight() {
    let cards = vec![
        card(Rank::Three, Suit::Diamonds),
        card(Rank::Three, Suit::Clubs),
        card(Rank::Four, Suit::Diamonds),
        card(Rank::Five, Suit::Diamonds),
    ];
    assert!(detect_combo(&cards).is_none());
}

#[test]
fn test_invalid_combo_6_cards() {
    let cards = vec![
        card(Rank::Three, Suit::Diamonds),
        card(Rank::Three, Suit::Clubs),
        card(Rank::Three, Suit::Hearts),
        card(Rank::Three, Suit::Spades),
        card(Rank::Seven, Suit::Diamonds),
        card(Rank::Seven, Suit::Clubs),
    ];
    assert!(detect_combo(&cards).is_none());
}

#[test]
fn test_compare_different_types() {
    let single = detect_combo(&[card(Rank::Three, Suit::Diamonds)]).unwrap();
    let pair = detect_combo(&[card(Rank::Three, Suit::Diamonds), card(Rank::Three, Suit::Clubs)]).unwrap();
    assert_eq!(compare_combos(&single, &pair), None);
}

#[test]
fn test_compare_single_rank() {
    let a = detect_combo(&[card(Rank::King, Suit::Diamonds)]).unwrap();
    let b = detect_combo(&[card(Rank::Three, Suit::Diamonds)]).unwrap();
    assert!(compare_combos(&a, &b).unwrap() > 0);
}

#[test]
fn test_compare_single_same_rank_equal() {
    let a = detect_combo(&[card(Rank::Three, Suit::Spades)]).unwrap();
    let b = detect_combo(&[card(Rank::Three, Suit::Diamonds)]).unwrap();
    assert_eq!(compare_combos(&a, &b).unwrap(), 0);
}

#[test]
fn test_compare_pair_rank() {
    let a = detect_combo(&[card(Rank::King, Suit::Diamonds), card(Rank::King, Suit::Clubs)]).unwrap();
    let b = detect_combo(&[card(Rank::Three, Suit::Diamonds), card(Rank::Three, Suit::Clubs)]).unwrap();
    assert!(compare_combos(&a, &b).unwrap() > 0);
}

#[test]
fn test_compare_pair_same_rank() {
    let a = detect_combo(&[card(Rank::King, Suit::Diamonds), card(Rank::King, Suit::Clubs)]).unwrap();
    let b = detect_combo(&[card(Rank::King, Suit::Hearts), card(Rank::King, Suit::Spades)]).unwrap();
    assert_eq!(compare_combos(&a, &b).unwrap(), 0);
}

#[test]
fn test_compare_straight_higher_wins() {
    let a = detect_combo(&[
        card(Rank::Five, Suit::Diamonds),
        card(Rank::Six, Suit::Diamonds),
        card(Rank::Seven, Suit::Diamonds),
    ]).unwrap();
    let b = detect_combo(&[
        card(Rank::Three, Suit::Diamonds),
        card(Rank::Four, Suit::Diamonds),
        card(Rank::Five, Suit::Diamonds),
    ]).unwrap();
    assert!(compare_combos(&a, &b).unwrap() > 0);
}

#[test]
fn test_compare_full_house_triple_rank() {
    let a = detect_combo(&[
        card(Rank::Ace, Suit::Diamonds),
        card(Rank::Ace, Suit::Clubs),
        card(Rank::Ace, Suit::Hearts),
        card(Rank::Two, Suit::Diamonds),
        card(Rank::Two, Suit::Clubs),
    ]).unwrap();
    let b = detect_combo(&[
        card(Rank::King, Suit::Diamonds),
        card(Rank::King, Suit::Clubs),
        card(Rank::King, Suit::Hearts),
        card(Rank::Three, Suit::Diamonds),
        card(Rank::Three, Suit::Clubs),
    ]).unwrap();
    assert!(compare_combos(&a, &b).unwrap() > 0);
}

#[test]
fn test_compare_four_kind_quad_rank() {
    let a = detect_combo(&[
        card(Rank::Ace, Suit::Diamonds),
        card(Rank::Ace, Suit::Clubs),
        card(Rank::Ace, Suit::Hearts),
        card(Rank::Ace, Suit::Spades),
        card(Rank::Two, Suit::Diamonds),
    ]).unwrap();
    let b = detect_combo(&[
        card(Rank::King, Suit::Diamonds),
        card(Rank::King, Suit::Clubs),
        card(Rank::King, Suit::Hearts),
        card(Rank::King, Suit::Spades),
        card(Rank::Three, Suit::Diamonds),
    ]).unwrap();
    assert!(compare_combos(&a, &b).unwrap() > 0);
}

#[test]
fn test_compare_four_kind_kicker() {
    let a = detect_combo(&[
        card(Rank::King, Suit::Diamonds),
        card(Rank::King, Suit::Clubs),
        card(Rank::King, Suit::Hearts),
        card(Rank::King, Suit::Spades),
        card(Rank::Ace, Suit::Diamonds),
    ]).unwrap();
    let b = detect_combo(&[
        card(Rank::King, Suit::Diamonds),
        card(Rank::King, Suit::Clubs),
        card(Rank::King, Suit::Hearts),
        card(Rank::King, Suit::Spades),
        card(Rank::Three, Suit::Diamonds),
    ]).unwrap();
    assert!(compare_combos(&a, &b).unwrap() > 0);
}
