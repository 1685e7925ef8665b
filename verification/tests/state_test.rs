use poker_banting_server::game::room::Room;
use poker_banting_server::game::rules::finalize_game;
use poker_banting_server::game::state::{
    now_millis, DriverState, GamePhase, GameState, PendingAction, Player, TrickState,
};

#[test]
fn test_trick_state_new() {
    let trick = TrickState::new();
    assert!(trick.cards.is_empty());
    assert_eq!(trick.combo_type, None);
    assert_eq!(trick.combo_player, None);
    assert!(trick.passed.is_empty());
}

#[test]
fn test_room_new() {
    let room = Room::new("ABC123".to_string(), "Host".to_string(), "host-token".to_string());
    assert_eq!(room.code, "ABC123");
    assert_eq!(room.players.len(), 1);
    assert_eq!(room.players[0].name, "Host");
    assert_eq!(room.players[0].token, Some("host-token".to_string()));
    assert!(room.players[0].is_creator);
    assert_eq!(room.state.phase, GamePhase::Lobby);
    assert!(!room.started);
    assert_eq!(room.ready, vec![true]);
}

#[test]
fn test_room_add_player() {
    let mut room = Room::new("ABC123".to_string(), "Host".to_string(), "host-token".to_string());
    let id = room.add_player("Player1".to_string(), "p1-token".to_string()).unwrap();
    assert_eq!(id, 1);
    assert_eq!(room.players.len(), 2);
    assert_eq!(room.state.players.len(), 2);
    assert_eq!(room.players[1].token, Some("p1-token".to_string()));
    assert!(!room.players[1].is_creator);
    assert_eq!(room.ready, vec![true, false]);
}

#[test]
fn test_room_add_player_full() {
    let mut room = Room::new("ABC123".to_string(), "Host".to_string(), "host-token".to_string());
    room.add_player("P1".to_string(), "t1".to_string()).unwrap();
    room.add_player("P2".to_string(), "t2".to_string()).unwrap();
    room.add_player("P3".to_string(), "t3".to_string()).unwrap();
    assert!(room.add_player("P4".to_string(), "t4".to_string()).is_err());
}

#[test]
fn test_room_add_bot() {
    let mut room = Room::new("ABC123".to_string(), "Host".to_string(), "host-token".to_string());
    let id = room.add_bot("Bot1".to_string());
    assert_eq!(id, 1);
    assert!(room.players[1].is_bot);
    assert!(room.players[1].token.is_none());
    assert!(!room.players[1].is_creator);
    assert_eq!(room.ready, vec![true, true]);
}

#[test]
fn test_room_started_no_join() {
    let mut room = Room::new("ABC123".to_string(), "Host".to_string(), "host-token".to_string());
    room.started = true;
    assert!(room.add_player("Late".to_string(), "late-token".to_string()).is_err());
}

#[test]
fn test_room_scores_initialized() {
    let mut room = Room::new("ABC123".to_string(), "Host".to_string(), "host-token".to_string());
    assert_eq!(room.state.scores, vec![0]);
    room.add_player("P1".to_string(), "p1-token".to_string()).unwrap();
    assert_eq!(room.state.scores, vec![0, 0]);
}

#[test]
fn test_room_is_public_default() {
    let room = Room::new("ABC123".to_string(), "Host".to_string(), "host-token".to_string());
    assert!(room.is_public);
}

#[test]
fn test_finalize_game_accumulates_total_scores_once() {
    let mut room = Room::new("ABC123".to_string(), "Host".to_string(), "host-token".to_string());
    room.start_game(); // round 1, phase ThreeDiscard

    // Simulate a finished round: 0=1st, 1=2nd, 2=3rd, 3=last (loser).
    room.state.scores = vec![10, 5, 0, -15];
    room.state.finished_order = vec![0, 1, 2];
    for p in room.state.players.iter_mut() {
        p.finished = true;
    }
    // Undo the 3 finished flags on player 3 so finalize can score the loser.
    room.state.players[3].finished = false;

    assert!(finalize_game(&mut room.state));
    assert_eq!(room.state.phase, GamePhase::GameOver);
    assert_eq!(room.state.total_scores, vec![10, 5, 0, -15]);
    assert_eq!(room.state.finished_order, vec![0, 1, 2, 3]);

    // Idempotency: a second call must NOT double-accumulate.
    assert!(!finalize_game(&mut room.state));
    assert_eq!(room.state.total_scores, vec![10, 5, 0, -15]);
}

#[test]
fn test_start_next_round_continues_session() {
    let mut room = Room::new("ABC123".to_string(), "Host".to_string(), "host-token".to_string());
    room.start_game();
    assert_eq!(room.state.round, 1);
    assert!(room.state.three_discard.is_some());

    // Finish round 1 through the real finalizer: scores are baked into
    // total_scores, phase flips to GameOver, and the round counter bumps
    // to 2 the moment the round ends.
    room.state.scores = vec![10, 5, 0, -15];
    room.state.finished_order = vec![0, 1, 2];
    for i in 0..4 {
        room.state.players[i].finished = true;
    }
    assert!(finalize_game(&mut room.state));
    assert_eq!(room.state.round, 2);
    assert_eq!(room.state.phase, GamePhase::GameOver);
    assert_eq!(room.state.total_scores, vec![10, 5, 0, -15]);

    // Continue the session (creator presses Start Game again).
    room.start_game();

    assert_eq!(room.state.round, 2);
    assert_eq!(room.state.phase, GamePhase::Playing);
    // No three-discard on round 2+.
    assert!(room.state.three_discard.is_none());
    // Fresh hands, all 13 cards.
    for p in room.state.players.iter() {
        assert_eq!(p.hand.len(), 13);
        assert!(!p.finished);
    }
    // Per-round scores reset; cumulative scores preserved.
    assert_eq!(room.state.scores, vec![0, 0, 0, 0]);
    assert_eq!(room.state.total_scores, vec![10, 5, 0, -15]);
    // Previous round's winner leads the first trick.
    assert_eq!(room.state.current_player, 0);
    assert!(room.state.finished_order.is_empty());
    // Auto-ready so the waiting room can start immediately.
    assert!(room.ready.iter().all(|&r| r));
    assert!(room.state.ready.iter().all(|&r| r));
}

#[test]
fn test_room_disconnected_player() {
    let mut room = Room::new("ABC123".to_string(), "Host".to_string(), "host-token".to_string());
    room.add_disconnected_player(0, "alice-token".to_string());
    assert_eq!(room.disconnected_players.len(), 1);
    assert_eq!(room.disconnected_players[0].0, 0);
    assert_eq!(room.disconnected_players[0].1, "alice-token");
}

#[test]
fn test_room_cleanup_expired_disconnected() {
    let mut room = Room::new("ABC123".to_string(), "alice".to_string(), "alice-token".to_string());
    room.add_disconnected_player(0, "alice-token".to_string());
    room.cleanup_expired_disconnected(0);
    assert!(room.disconnected_players.is_empty());
}

#[test]
fn test_set_ready() {
    let mut room = Room::new("ABC123".to_string(), "Host".to_string(), "h".to_string());
    room.add_player("P1".to_string(), "p1".to_string()).unwrap();
    room.set_ready(1, true).unwrap();
    assert_eq!(room.ready, vec![true, true]);
    room.set_ready(1, false).unwrap();
    assert_eq!(room.ready, vec![true, false]);
}

#[test]
fn test_set_ready_invalid_seat() {
    let mut room = Room::new("ABC123".to_string(), "Host".to_string(), "h".to_string());
    assert!(room.set_ready(5, true).is_err());
}

#[test]
fn test_all_human_ready() {
    let mut room = Room::new("ABC123".to_string(), "Host".to_string(), "h".to_string());
    assert!(room.all_human_ready());
    room.add_player("P1".to_string(), "p1".to_string()).unwrap();
    assert!(!room.all_human_ready());
    room.set_ready(1, true).unwrap();
    assert!(room.all_human_ready());
}

#[test]
fn state_test_start_game() {
    let mut room = Room::new("ABC123".to_string(), "Host".to_string(), "h".to_string());
    room.add_player("P1".to_string(), "p1".to_string()).unwrap();
    room.start_game();
    assert!(room.started);
    assert_eq!(room.players.len(), 4);
    assert_eq!(room.state.phase, GamePhase::ThreeDiscard);
}

#[test]
fn test_driver_state_arm_and_due() {
    let mut state = GameState {
        phase: GamePhase::Playing,
        players: vec![
            Player {
                id: 0,
                name: "A".into(),
                hand: Vec::new(),
                finished: false,
                is_bot: false,
                connected: true,
                is_creator: true,
            },
            Player {
                id: 1,
                name: "Bot".into(),
                hand: Vec::new(),
                finished: false,
                is_bot: true,
                connected: true,
                is_creator: false,
            },
        ],
        ready: vec![true, true],
        current_player: 0,
        trick: TrickState::new(),
        finished_order: Vec::new(),
        scores: vec![0, 0],
        round: 1,
        total_scores: vec![0, 0],
        three_discard: None,
        log: Vec::new(),
        play_limit_secs: 10,
        winning_point: 50,
        game_winner: None,
        turn_seq: 7,
    };

    let mut d = DriverState::default();
    assert!(!d.is_due());
    assert!(!d.watchdog_due(&state));

    // Bot seat: watchdog must NOT arm (bots are exempt).
    state.current_player = 1;
    d.arm_watchdog(&state);
    assert!(d.watchdog_deadline_ms.is_none());
    assert!(d.watchdog_turn_seq.is_none());

    // Human seat: arms with deadline ≈ now + 10s, keyed to turn_seq.
    state.current_player = 0;
    d.arm_watchdog(&state);
    let now = now_millis();
    let wd = d.watchdog_deadline_ms.expect("watchdog armed");
    assert!(wd >= now + 9_900 && wd <= now + 11_000);
    assert_eq!(d.watchdog_turn_seq, Some(7));
    assert!(!d.watchdog_due(&state)); // not yet due

    // A stale watchdog (turn moved on) must never fire.
    state.turn_seq = 8;
    assert!(!d.watchdog_due(&state));

    // Pending action: far-future is not due; past is due.
    d.arm(PendingAction::BotTurn, 60_000);
    assert!(!d.is_due());
    d.next_action_at_ms = now_millis().saturating_sub(1);
    assert!(d.is_due());
    d.clear_pending();
    assert!(!d.is_due());
}
