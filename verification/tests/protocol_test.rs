use poker_banting_server::game::card::{Card, Rank, Suit};
use poker_banting_server::game::state::{GamePhase, GameState, Player, ThreeDiscardState, TrickState};
use poker_banting_server::protocol::{personalise_for_viewer, personalise_state, ServerMsg};

#[test]
fn test_personalise_state_hides_other_hands() {
    let mut state = GameState {
        phase: GamePhase::Playing,
        players: vec![],
        ready: vec![],
        current_player: 0,
        trick: TrickState::new(),
        finished_order: Vec::new(),
        scores: Vec::new(),
        round: 1,
        total_scores: vec![0],
        three_discard: None,
        log: Vec::new(),
        play_limit_secs: 10,
        winning_point: 50,
        game_winner: None,
        turn_seq: 0,
    };
    for i in 0..4 {
        let p = Player {
            id: i,
            name: format!("P{}", i),
            hand: vec![
                Card::new(Rank::King, Suit::Hearts),
                Card::new(Rank::Three, Suit::Spades),
            ],
            finished: false,
            is_bot: i != 0,
            connected: true,
            is_creator: i == 0,
        };
        state.players.push(p);
    }
    let view = personalise_state(&state, 1);
    // Own hand survives, count is public
    assert_eq!(view.players[1].hand.len(), 2);
    // Other hands are empty
    assert!(view.players[0].hand.is_empty());
    assert!(view.players[2].hand.is_empty());
    assert!(view.players[3].hand.is_empty());
}

#[test]
fn test_personalise_msg_hides_other_threes() {
    let state = GameState {
        phase: GamePhase::ThreeDiscard,
        players: (0..4)
            .map(|i| Player {
                id: i,
                name: format!("P{}", i),
                hand: Vec::new(),
                finished: false,
                is_bot: i != 0,
                connected: true,
                is_creator: i == 0,
            })
            .collect(),
        ready: vec![true; 4],
        current_player: 0,
        trick: TrickState::new(),
        finished_order: Vec::new(),
        scores: vec![0; 4],
        round: 1,
        total_scores: vec![0; 4],
        three_discard: Some(ThreeDiscardState {
            order: vec![0, 1, 2, 3],
            index: 0,
            player_cards: vec![
                vec![Card::new(Rank::Three, Suit::Hearts), Card::new(Rank::Three, Suit::Spades)],
                vec![Card::new(Rank::Three, Suit::Diamonds)],
                Vec::new(),
                vec![Card::new(Rank::Three, Suit::Clubs)],
            ],
            discarded: vec![false; 4],
        }),
        log: Vec::new(),
        play_limit_secs: 10,
        winning_point: 50,
        game_winner: None,
        turn_seq: 0,
    };
    let shown = personalise_for_viewer(&ServerMsg::State { state }, 0);
    let ServerMsg::State { state: seen } = &shown.msg else {
        panic!("Expected State");
    };
    let td = seen.three_discard.as_ref().unwrap();
    // Viewer keeps their own 3s
    assert_eq!(td.player_cards[0].len(), 2);
    // Others are masked
    assert!(td.player_cards[1].is_empty());
    assert!(td.player_cards[2].is_empty());
    assert!(td.player_cards[3].is_empty());
    // Counts stay public
    assert_eq!(shown.three_counts, Some(vec![2, 1, 0, 1]));
}

#[test]
fn test_personalise_non_state_msg_untouched() {
    let msg = ServerMsg::PlayerJoined {
        player_id: 1,
        name: "Bob".to_string(),
    };
    let shown = personalise_for_viewer(&msg, 0);
    assert_eq!(
        shown.msg,
        ServerMsg::PlayerJoined { player_id: 1, name: "Bob".to_string() }
    );
    assert!(shown.hand_counts.is_empty());
    assert!(shown.three_counts.is_none());
}
