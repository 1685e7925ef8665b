use poker_banting_server::game::card::{Card, Rank, Suit};
use poker_banting_server::game::combo;
use poker_banting_server::game::combo::ComboType;
use poker_banting_server::game::rules::{
    check_trick_complete, deal_cards, end_game, next_player, non_participants, resolve_trick,
    validate_play,
};
use poker_banting_server::game::state::{GamePhase, GameState, Player, TrickState};

fn blank() -> GameState {
    GameState {
        phase: GamePhase::Playing,
        players: Vec::new(),
        ready: vec![true; 4],
        current_player: 0,
        trick: TrickState::new(),
        finished_order: Vec::new(),
        scores: vec![0; 4],
        round: 1,
        total_scores: vec![0; 4],
        three_discard: None,
        log: Vec::new(),
        play_limit_secs: 10,
        winning_point: 50,
        game_winner: None,
        turn_seq: 0,
    }
}

fn card(rank: Rank, suit: Suit) -> Card {
    Card::new(rank, suit)
}

#[test]
fn test_validate_play_empty() {
    let result = validate_play(&[], None);
    assert!(!result.valid);
}

#[test]
fn test_validate_play_invalid_combo() {
    let cards = vec![card(Rank::Three, Suit::Diamonds), card(Rank::Four, Suit::Diamonds)];
    let result = validate_play(&cards, None);
    assert!(!result.valid);
}

#[test]
fn test_validate_play_single_valid() {
    let cards = vec![card(Rank::Three, Suit::Diamonds)];
    let result = validate_play(&cards, None);
    assert!(result.valid);
}

#[test]
fn test_validate_play_beat_single() {
    let table = combo::detect_combo(&[card(Rank::Three, Suit::Diamonds)]).unwrap();
    let cards = vec![card(Rank::King, Suit::Diamonds)];
    let result = validate_play(&cards, Some(&table));
    assert!(result.valid);
}

#[test]
fn test_validate_play_cannot_beat() {
    let table = combo::detect_combo(&[card(Rank::King, Suit::Diamonds)]).unwrap();
    let cards = vec![card(Rank::Three, Suit::Diamonds)];
    let result = validate_play(&cards, Some(&table));
    assert!(!result.valid);
}

#[test]
fn test_validate_play_type_mismatch() {
    let table = combo::detect_combo(&[card(Rank::Three, Suit::Diamonds)]).unwrap();
    let cards = vec![
        card(Rank::Three, Suit::Diamonds),
        card(Rank::Three, Suit::Clubs),
    ];
    let result = validate_play(&cards, Some(&table));
    assert!(!result.valid);
}

#[test]
fn test_resolve_trick_basic() {
    let mut state = GameState {
        phase: GamePhase::Playing,
        players: vec![
            Player { id: 0, name: "P0".to_string(), hand: Vec::new(), finished: true, is_bot: false, connected: true, is_creator: false },
            Player { id: 1, name: "P1".to_string(), hand: Vec::new(), finished: false, is_bot: false, connected: true, is_creator: false },
            Player { id: 2, name: "P2".to_string(), hand: Vec::new(), finished: false, is_bot: false, connected: true, is_creator: false },
            Player { id: 3, name: "P3".to_string(), hand: Vec::new(), finished: false, is_bot: false, connected: true, is_creator: false },
        ],
        current_player: 0,
        trick: TrickState {
            cards: vec![card(Rank::Three, Suit::Diamonds)],
            combo_type: Some(ComboType::Single),
            combo_player: Some(0),
            passed: vec![1, 2, 3],
            played: Vec::new(),
        },
        finished_order: vec![0],
        scores: vec![10, 0, 0, 0],
        three_discard: None,
        log: Vec::new(),
        ..blank()
    };

    resolve_trick(&mut state, 0);
    assert_eq!(state.finished_order, vec![0]);
    assert_eq!(state.scores[0], 10);
    assert_eq!(state.current_player, 0);
}

#[test]
fn test_end_game() {
    let mut state = GameState {
        phase: GamePhase::Playing,
        players: vec![
            Player { id: 0, name: "P0".to_string(), hand: Vec::new(), finished: true, is_bot: false, connected: true, is_creator: false },
            Player { id: 1, name: "P1".to_string(), hand: Vec::new(), finished: true, is_bot: false, connected: true, is_creator: false },
            Player { id: 2, name: "P2".to_string(), hand: Vec::new(), finished: true, is_bot: false, connected: true, is_creator: false },
            Player { id: 3, name: "P3".to_string(), hand: vec![card(Rank::Two, Suit::Spades)], finished: false, is_bot: false, connected: true, is_creator: false },
        ],
        current_player: 3,
        trick: TrickState::new(),
        finished_order: vec![0, 1, 2],
        scores: vec![10, 5, 0, 0],
        three_discard: None,
        log: Vec::new(),
        ..blank()
    };

    assert!(end_game(&mut state));
    assert_eq!(state.phase, GamePhase::GameOver);
}

#[test]
fn test_end_game_not_yet() {
    let mut state = GameState {
        phase: GamePhase::Playing,
        players: vec![
            Player { id: 0, name: "P0".to_string(), hand: Vec::new(), finished: true, is_bot: false, connected: true, is_creator: false },
            Player { id: 1, name: "P1".to_string(), hand: Vec::new(), finished: false, is_bot: false, connected: true, is_creator: false },
            Player { id: 2, name: "P2".to_string(), hand: Vec::new(), finished: false, is_bot: false, connected: true, is_creator: false },
            Player { id: 3, name: "P3".to_string(), hand: Vec::new(), finished: false, is_bot: false, connected: true, is_creator: false },
        ],
        current_player: 1,
        trick: TrickState::new(),
        finished_order: vec![0],
        scores: vec![10, 0, 0, 0],
        three_discard: None,
        log: Vec::new(),
        ..blank()
    };

    assert!(!end_game(&mut state));
}

#[test]
fn test_deal_cards() {
    let mut state = GameState {
        phase: GamePhase::Playing,
        players: vec![
            Player { id: 0, name: "P0".to_string(), hand: Vec::new(), finished: false, is_bot: false, connected: true, is_creator: false },
            Player { id: 1, name: "P1".to_string(), hand: Vec::new(), finished: false, is_bot: false, connected: true, is_creator: false },
            Player { id: 2, name: "P2".to_string(), hand: Vec::new(), finished: false, is_bot: false, connected: true, is_creator: false },
            Player { id: 3, name: "P3".to_string(), hand: Vec::new(), finished: false, is_bot: false, connected: true, is_creator: false },
        ],
        current_player: 0,
        trick: TrickState::new(),
        finished_order: Vec::new(),
        scores: vec![0, 0, 0, 0],
        three_discard: None,
        log: Vec::new(),
        ..blank()
    };

    deal_cards(&mut state);
    for i in 0..4 {
        assert_eq!(state.players[i].hand.len(), 13);
    }
}

#[test]
fn test_next_player() {
    let state = GameState {
        phase: GamePhase::Playing,
        players: vec![
            Player { id: 0, name: "P0".to_string(), hand: Vec::new(), finished: false, is_bot: false, connected: true, is_creator: false },
            Player { id: 1, name: "P1".to_string(), hand: Vec::new(), finished: false, is_bot: false, connected: true, is_creator: false },
            Player { id: 2, name: "P2".to_string(), hand: Vec::new(), finished: false, is_bot: false, connected: true, is_creator: false },
            Player { id: 3, name: "P3".to_string(), hand: Vec::new(), finished: false, is_bot: false, connected: true, is_creator: false },
        ],
        current_player: 0,
        trick: TrickState::new(),
        finished_order: Vec::new(),
        scores: vec![0, 0, 0, 0],
        three_discard: None,
        log: Vec::new(),
        ..blank()
    };
    assert_eq!(next_player(&state), 1);
}

#[test]
fn test_next_player_wrap() {
    let state = GameState {
        phase: GamePhase::Playing,
        players: vec![
            Player { id: 0, name: "P0".to_string(), hand: Vec::new(), finished: false, is_bot: false, connected: true, is_creator: false },
            Player { id: 1, name: "P1".to_string(), hand: Vec::new(), finished: false, is_bot: false, connected: true, is_creator: false },
            Player { id: 2, name: "P2".to_string(), hand: Vec::new(), finished: false, is_bot: false, connected: true, is_creator: false },
            Player { id: 3, name: "P3".to_string(), hand: Vec::new(), finished: false, is_bot: false, connected: true, is_creator: false },
        ],
        current_player: 3,
        trick: TrickState::new(),
        finished_order: Vec::new(),
        scores: vec![0, 0, 0, 0],
        three_discard: None,
        log: Vec::new(),
        ..blank()
    };
    assert_eq!(next_player(&state), 0);
}

#[test]
fn test_scoring_positions() {
    let mut state = GameState {
        phase: GamePhase::Playing,
        players: vec![
            Player { id: 0, name: "P0".to_string(), hand: Vec::new(), finished: false, is_bot: false, connected: true, is_creator: false },
            Player { id: 1, name: "P1".to_string(), hand: Vec::new(), finished: false, is_bot: false, connected: true, is_creator: false },
            Player { id: 2, name: "P2".to_string(), hand: Vec::new(), finished: false, is_bot: false, connected: true, is_creator: false },
            Player { id: 3, name: "P3".to_string(), hand: Vec::new(), finished: false, is_bot: false, connected: true, is_creator: false },
        ],
        current_player: 0,
        trick: TrickState::new(),
        finished_order: Vec::new(),
        scores: vec![0, 0, 0, 0],
        three_discard: None,
        log: Vec::new(),
        ..blank()
    };

    // P0 finishes first (+10) — scoring happens when hand empties
    state.players[0].finished = true;
    state.finished_order.push(0);
    state.scores[0] = 10;
    resolve_trick(&mut state, 0);
    assert_eq!(state.scores[0], 10);

    // P1 finishes second (+5)
    state.players[1].finished = true;
    state.finished_order.push(1);
    state.scores[1] = 5;
    resolve_trick(&mut state, 1);
    assert_eq!(state.scores[1], 5);

    // P2 finishes third (0)
    state.players[2].finished = true;
    state.finished_order.push(2);
    state.scores[2] = 0;
    resolve_trick(&mut state, 2);
    assert_eq!(state.scores[2], 0);
}

#[test]
fn test_check_trick_complete_all_passed() {
    let state = GameState {
        phase: GamePhase::Playing,
        players: vec![
            Player { id: 0, name: "P0".to_string(), hand: Vec::new(), finished: false, is_bot: false, connected: true, is_creator: false },
            Player { id: 1, name: "P1".to_string(), hand: Vec::new(), finished: false, is_bot: false, connected: true, is_creator: false },
            Player { id: 2, name: "P2".to_string(), hand: Vec::new(), finished: false, is_bot: false, connected: true, is_creator: false },
            Player { id: 3, name: "P3".to_string(), hand: Vec::new(), finished: false, is_bot: false, connected: true, is_creator: false },
        ],
        current_player: 0,
        trick: TrickState {
            cards: vec![card(Rank::Three, Suit::Diamonds)],
            combo_type: Some(ComboType::Single),
            combo_player: Some(0),
            passed: vec![1, 2, 3],
            played: Vec::new(),
        },
        finished_order: Vec::new(),
        scores: vec![0, 0, 0, 0],
        three_discard: None,
        log: Vec::new(),
        ..blank()
    };

    assert_eq!(check_trick_complete(&state), Some(0));
}

#[test]
fn test_check_trick_incomplete() {
    let state = GameState {
        phase: GamePhase::Playing,
        players: vec![
            Player { id: 0, name: "P0".to_string(), hand: Vec::new(), finished: false, is_bot: false, connected: true, is_creator: false },
            Player { id: 1, name: "P1".to_string(), hand: Vec::new(), finished: false, is_bot: false, connected: true, is_creator: false },
            Player { id: 2, name: "P2".to_string(), hand: Vec::new(), finished: false, is_bot: false, connected: true, is_creator: false },
            Player { id: 3, name: "P3".to_string(), hand: Vec::new(), finished: false, is_bot: false, connected: true, is_creator: false },
        ],
        current_player: 0,
      trick: TrickState {
            cards: vec![card(Rank::Three, Suit::Diamonds)],
            combo_type: Some(ComboType::Single),
            combo_player: Some(0),
            passed: vec![1],
            played: Vec::new(),
        },
        finished_order: Vec::new(),
        scores: vec![0, 0, 0, 0],
        three_discard: None,
        log: Vec::new(),
        ..blank()
    };

    assert_eq!(check_trick_complete(&state), None);
}

#[test]
fn test_check_trick_with_finished_player() {
    let state = GameState {
        phase: GamePhase::Playing,
        players: vec![
            Player { id: 0, name: "P0".to_string(), hand: Vec::new(), finished: false, is_bot: false, connected: true, is_creator: false },
            Player { id: 1, name: "P1".to_string(), hand: Vec::new(), finished: false, is_bot: false, connected: true, is_creator: false },
            Player { id: 2, name: "P2".to_string(), hand: Vec::new(), finished: true, is_bot: true, connected: true, is_creator: false },
            Player { id: 3, name: "P3".to_string(), hand: Vec::new(), finished: false, is_bot: false, connected: true, is_creator: false },
        ],
        current_player: 0,
        trick: TrickState {
            cards: vec![card(Rank::Two, Suit::Spades)],
            combo_type: Some(ComboType::Single),
            combo_player: Some(0),
            passed: vec![1, 3],
            played: Vec::new(),
        },
        finished_order: vec![2],
        scores: vec![0, 0, 10, 0],
        three_discard: None,
        log: Vec::new(),
        ..blank()
    };

    assert_eq!(non_participants(&state), 3);
    assert_eq!(check_trick_complete(&state), Some(0));
}
