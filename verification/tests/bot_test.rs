use poker_banting_server::game::bot::{bot_play, combo_strength, find_valid_combos};
use poker_banting_server::game::card::{Card, Rank, Suit};
use poker_banting_server::game::combo::ComboType;
use poker_banting_server::game::state::{GamePhase, GameState, Player, TrickState};

fn card(rank: Rank, suit: Suit) -> Card {
    Card::new(rank, suit)
}

fn make_state(hand: Vec<Card>) -> GameState {
    GameState {
        phase: GamePhase::Playing,
        players: vec![
            Player { id: 0, name: "P0".to_string(), hand, finished: false, is_bot: false, connected: true, is_creator: false },
            Player { id: 1, name: "Bot1".to_string(), hand: Vec::new(), finished: false, is_bot: false, connected: true, is_creator: false },
            Player { id: 2, name: "Bot2".to_string(), hand: Vec::new(), finished: false, is_bot: false, connected: true, is_creator: false },
            Player { id: 3, name: "Bot3".to_string(), hand: Vec::new(), finished: false, is_bot: false, connected: true, is_creator: false },
        ],
        ready: vec![true; 4],
        current_player: 0,
        trick: TrickState::new(),
        finished_order: Vec::new(),
        scores: vec![0, 0, 0, 0],
        round: 1,
        total_scores: vec![0],
        three_discard: None,
        log: Vec::new(),
        play_limit_secs: 10,
        winning_point: 50,
        game_winner: None,
        turn_seq: 0,
    }
}

#[test]
fn test_bot_free_play_picks_single() {
    let hand = vec![
        card(Rank::Three, Suit::Diamonds),
        card(Rank::King, Suit::Diamonds),
        card(Rank::Two, Suit::Diamonds),
    ];
    let state = make_state(hand);
    let result = bot_play(&state, 0);
    assert!(result.is_some());
    // Should play lowest card
    assert_eq!(result.unwrap(), vec![0]);
}

#[test]
fn test_bot_free_play_picks_pair() {
    let hand = vec![
        card(Rank::Three, Suit::Diamonds),
        card(Rank::Three, Suit::Clubs),
        card(Rank::Two, Suit::Diamonds),
    ];
    let state = make_state(hand);
    let result = bot_play(&state, 0);
    assert!(result.is_some());
    // Should play the pair of 3s (lowest combo)
    assert_eq!(result.unwrap(), vec![0, 1]);
}

#[test]
fn test_bot_beat_play() {
    let mut state = make_state(vec![
        card(Rank::Three, Suit::Diamonds),
        card(Rank::King, Suit::Diamonds),
        card(Rank::Two, Suit::Diamonds),
    ]);

    // Table has a 3 of clubs
    state.trick.cards = vec![card(Rank::Three, Suit::Clubs)];
    state.trick.combo_type = Some(ComboType::Single);
    state.trick.combo_player = Some(1);

    let result = bot_play(&state, 0);
    assert!(result.is_some());
    // Should play King (lowest card that beats 3)
    assert_eq!(result.unwrap(), vec![1]);
}

#[test]
fn test_bot_pass_when_cannot_beat() {
    let mut state = make_state(vec![
        card(Rank::Three, Suit::Diamonds),
        card(Rank::Four, Suit::Diamonds),
        card(Rank::Five, Suit::Diamonds),
    ]);

    // Table has a 2 (highest single)
    state.trick.cards = vec![card(Rank::Two, Suit::Spades)];
    state.trick.combo_type = Some(ComboType::Single);
    state.trick.combo_player = Some(1);

    let result = bot_play(&state, 0);
    assert!(result.is_none());
}

#[test]
fn test_bot_three_discard() {
    let mut state = make_state(vec![
        card(Rank::Three, Suit::Diamonds),
        card(Rank::Three, Suit::Clubs),
        card(Rank::King, Suit::Diamonds),
    ]);
    state.phase = GamePhase::ThreeDiscard;

    let result = bot_play(&state, 0);
    assert!(result.is_some());
    assert_eq!(result.unwrap(), vec![0, 1]);
}

#[test]
fn test_bot_three_discard_no_threes() {
    let mut state = make_state(vec![
        card(Rank::King, Suit::Diamonds),
        card(Rank::Ace, Suit::Diamonds),
        card(Rank::Two, Suit::Diamonds),
    ]);
    state.phase = GamePhase::ThreeDiscard;

    let result = bot_play(&state, 0);
    assert!(result.is_none());
}

#[test]
fn test_find_valid_combos_singles() {
    let hand = vec![
        card(Rank::Three, Suit::Diamonds),
        card(Rank::King, Suit::Diamonds),
    ];
    let combos = find_valid_combos(&hand);
    assert_eq!(combos.len(), 2); // 2 singles
}

#[test]
fn test_find_valid_combos_pair() {
    let hand = vec![
        card(Rank::Three, Suit::Diamonds),
        card(Rank::Three, Suit::Clubs),
        card(Rank::King, Suit::Diamonds),
    ];
    let combos = find_valid_combos(&hand);
    // 3 singles + 1 pair = 4
    assert_eq!(combos.len(), 4);
}

#[test]
fn test_combo_strength_lower_is_weaker() {
    let hand = vec![
        card(Rank::Three, Suit::Diamonds),
        card(Rank::King, Suit::Diamonds),
    ];
    let combos = find_valid_combos(&hand);

    let three_strength = combo_strength(&hand, &combos[0]);
    let king_strength = combo_strength(&hand, &combos[1]);

    assert!(three_strength < king_strength);
}
