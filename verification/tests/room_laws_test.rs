use poker_banting_server::driver::ticks::{plan_tick, TickPlan};
use poker_banting_server::game::card::{Card, Rank, Suit};
use poker_banting_server::game::room::Room;
use poker_banting_server::game::state::{now_secs, GamePhase, PendingAction};
use poker_banting_server::guard::{is_aligned, is_drivable, is_movable, is_startable};
use poker_banting_server::{health, health_report};
use poker_banting_server::protocol::{personalise_state, ServerMsg};
use poker_banting_server::rooms::commit::{commit_of, Commit};
use poker_banting_server::rooms::entry::give_up;
use poker_banting_server::rooms::RoomManager;
use poker_banting_server::store::{InMemoryStore, MutateOut};

fn manager() -> RoomManager {
    RoomManager::new("pod".to_string(), 6, 100, 30, 15)
}

/// A room with these players, the first of them its creator; their tokens are
/// "t0", "t1" and so on.
fn room_of(names: &[&str]) -> Room {
    let mut room = Room::new("CODE12".to_string(), names[0].to_string(), "t0".to_string());
    for (i, name) in names.iter().enumerate().skip(1) {
        room.add_player(name.to_string(), format!("t{}", i)).unwrap();
    }
    room
}

fn started(names: &[&str]) -> Room {
    let mut room = room_of(names);
    for i in 0..names.len() {
        room.set_ready(i, true).unwrap();
    }
    manager().start_game_at(&mut room, 0, 1_000).unwrap();
    room
}

// Seats

#[test]
fn seats_stay_in_agreement() {
    let mut room = room_of(&["Ann", "Ben"]);
    assert!(is_aligned(&room));
    room.add_bot("Bot".to_string());
    assert!(is_aligned(&room));
    room.remove_lobby_seat(1);
    assert!(is_aligned(&room));
}

#[test]
fn bots_fill_the_table() {
    let room = started(&["Ann"]);
    assert_eq!(room.players.len(), 4);
    assert_eq!(room.players[3].name, "Bot 4");
    assert!(room.players[3].is_bot);
    assert!(is_aligned(&room));
}

#[test]
fn survivors_keep_their_players_when_a_seat_goes() {
    let mut room = room_of(&["Ann", "Ben", "Cleo"]);
    let moves = room.remove_lobby_seat(1);
    assert_eq!(moves, vec![(2, 1)]);
    assert_eq!(room.players[1].name, "Cleo");
    assert_eq!(room.players[1].token, Some("t2".to_string()));
    assert_eq!(room.state.players[1].name, "Cleo");
}

#[test]
fn removal_closes_the_ranks() {
    for taken in 0..4 {
        let mut room = room_of(&["Ann", "Ben", "Cleo", "Dan"]);
        room.set_ready(2, true).unwrap();
        for seat in 0..4 {
            room.add_disconnected_player_at(seat, format!("t{}", seat), 50);
            room.state.scores[seat] = 10 * seat as i32;
        }
        let before = room.clone();
        let moves = room.remove_lobby_seat(taken);
        let all: Vec<(usize, usize)> = (taken + 1..4).map(|j| (j, j - 1)).collect();
        assert_eq!(moves, all);
        assert!(is_aligned(&room));
        for seat in 0..3 {
            let from = if seat < taken { seat } else { seat + 1 };
            assert_eq!(room.players[seat].name, before.players[from].name);
            assert_eq!(room.players[seat].token, before.players[from].token);
            assert_eq!(room.state.players[seat].name, before.state.players[from].name);
            assert_eq!(room.ready[seat], before.ready[from]);
            assert_eq!(room.state.ready[seat], before.state.ready[from]);
            assert_eq!(room.state.scores[seat], before.state.scores[from]);
            assert_eq!(room.disconnected_players[seat], (seat, format!("t{}", from), 50));
        }
        assert_eq!(room.disconnected_players.len(), 3);
    }
}

#[test]
fn a_lobby_stays_in_agreement() {
    let mut room = room_of(&["Ann", "Ben"]);
    room.add_bot("Bot".to_string());
    room.add_disconnected_player_at(1, "t1".to_string(), 50);
    room.set_ready(1, true).unwrap();
    assert_eq!(room.remove_lobby_seat(0), vec![(1, 0), (2, 1)]);
    assert!(is_aligned(&room));
    assert_eq!(room.remove_lobby_seat(7), Vec::new());
    assert!(is_aligned(&room));
    room.add_player("Dan".to_string(), "t9".to_string()).unwrap();
    assert!(is_aligned(&room));
    assert_eq!(room.players.len(), 3);
}

#[test]
fn reaping_reports_every_move() {
    let mut room = room_of(&["Ann", "Ben", "Cleo", "Dan"]);
    for seat in [0, 2] {
        room.players[seat].connected = false;
        room.players[seat].disconnect_time = Some(100);
    }
    let (gone, moves) = room.cleanup_disconnected_lobby_players_at(15, 120);
    assert_eq!(gone, vec![(0, "Ann".to_string()), (2, "Cleo".to_string())]);
    assert_eq!(moves, vec![(1, 0), (3, 1)]);
}

#[test]
fn a_removed_seat_cannot_be_taken_over() {
    let mut room = room_of(&["Ann", "Ben", "Cleo"]);
    room.add_disconnected_player_at(1, "t1".to_string(), 50);
    room.add_disconnected_player_at(2, "t2".to_string(), 50);
    room.remove_lobby_seat(1);
    assert_eq!(room.disconnected_players, vec![(1, "t2".to_string(), 50)]);
}

#[test]
fn reaping_takes_the_stale_seats_only() {
    let mut room = room_of(&["Ann", "Ben", "Cleo", "Dan"]);
    for (seat, at) in [(1, 100), (2, 120)] {
        room.players[seat].connected = false;
        room.players[seat].disconnect_time = Some(at);
        room.add_disconnected_player_at(seat, format!("t{}", seat), at);
    }
    let (seats, moves) = room.cleanup_disconnected_lobby_players_at(15, 120);
    assert_eq!(seats, vec![(1, "Ben".to_string())]);
    assert_eq!(moves, vec![(2, 1), (3, 2)]);
    assert!(is_aligned(&room));
    assert_eq!(room.players[1].name, "Cleo");
    assert_eq!(room.disconnected_players, vec![(1, "t2".to_string(), 120)]);
    let (seats, moves) = room.cleanup_disconnected_lobby_players_at(15, 135);
    assert_eq!(seats, vec![(1, "Cleo".to_string())]);
    assert_eq!(moves, vec![(2, 1)]);
}

#[test]
fn two_stale_seats_move_the_rest_once() {
    let mut room = room_of(&["Ann", "Ben", "Cleo", "Dan"]);
    for seat in [0, 2] {
        room.players[seat].disconnect_time = Some(100);
    }
    let (seats, moves) = room.cleanup_disconnected_lobby_players_at(0, 100);
    assert_eq!(seats, vec![(0, "Ann".to_string()), (2, "Cleo".to_string())]);
    assert_eq!(moves, vec![(1, 0), (3, 1)]);
}

// Orphans

#[test]
fn a_room_with_a_human_is_not_orphaned() {
    let mut room = room_of(&["Ann", "Ben"]);
    room.players[1].connected = false;
    room.record_human_disconnect_at(100);
    assert!(room.has_connected_human());
    assert!(!room.is_orphaned_at(0, 1_000));
}

#[test]
fn an_empty_room_is_orphaned_after_the_timeout() {
    let mut room = room_of(&["Ann"]);
    room.players[0].connected = false;
    room.record_human_disconnect_at(100);
    assert!(!room.is_orphaned_at(30, 129));
    assert!(room.is_orphaned_at(30, 130));
    room.human_reconnected();
    assert!(!room.is_orphaned_at(30, 9_999));
}

#[test]
fn absence_is_noted_by_the_clock() {
    let mut room = room_of(&["Ann"]);
    room.record_human_disconnect();
    assert_eq!(room.last_human_disconnect_at, None);
    room.players[0].connected = false;
    let before = now_secs();
    room.record_human_disconnect();
    let noted = room.last_human_disconnect_at.unwrap();
    assert!(before <= noted && noted <= now_secs());
    assert!(!room.is_orphaned(60));
    assert!(room.is_orphaned(0));
}

// Joining, leaving and coming back

#[test]
fn joining_respects_the_table() {
    let m = manager();
    let mut room = room_of(&["Ann"]);
    for i in 1..4 {
        let out = m
            .join_room_with(&mut room, "CODE12".to_string(), format!("P{}", i), format!("t{}", i))
            .unwrap();
        assert_eq!(
            out.broadcast[0],
            ServerMsg::PlayerJoined { player_id: i, name: format!("P{}", i) }
        );
        assert!(matches!(out.reply, Some(ServerMsg::Joined { player_id, .. }) if player_id == i));
    }
    let before = room.clone();
    let refused = m.join_room_with(&mut room, "CODE12".to_string(), "E".to_string(), "t".to_string());
    assert_eq!(refused.unwrap_err(), "Room is full");
    assert_eq!(room, before);
    let mut late = started(&["Ann"]);
    let refused = m.join_room_with(&mut late, "CODE12".to_string(), "E".to_string(), "t".to_string());
    assert!(refused.is_err());
}

#[test]
fn a_lobby_dropout_keeps_their_seat() {
    let m = manager();
    let mut room = room_of(&["Ann", "Ben"]);
    room.is_public = false;
    m.leave_room_at(&mut room, 1, 1_000).unwrap();
    assert_eq!(room.players.len(), 2);
    assert!(!room.players[1].connected);
    m.rejoin_room_at(&mut room, "CODE12".to_string(), "Ben", "t1", 1_010).unwrap();
    assert!(room.players[1].connected);
    assert_eq!(room.players[1].name, "Ben");
    assert!(room.disconnected_players.is_empty());
}

#[test]
fn coming_back_restores_the_seat_in_a_game() {
    let m = manager();
    let mut room = started(&["Ann", "Ben"]);
    m.leave_room_at(&mut room, 1, 1_000).unwrap();
    assert_eq!(room.state.players[1].name, "Bot (Ben)");
    assert!(room.state.players[1].is_bot);
    assert!(m.check_room_at(&mut room, "t1", 1_299));
    let out = m.rejoin_room_at(&mut room, "CODE12".to_string(), "Ben", "t1", 1_299).unwrap();
    assert!(matches!(out.reply, Some(ServerMsg::Rejoined { player_id: 1, .. })));
    assert_eq!(room.state.players[1].name, "Ben");
    assert!(!room.state.players[1].is_bot);
    assert_eq!(room.players[1].token, Some("t1".to_string()));
}

#[test]
fn a_look_tells_whether_coming_back_would_work() {
    let m = manager();
    let mut room = started(&["Ann", "Ben"]);
    m.leave_room_at(&mut room, 1, 1_000).unwrap();
    let mut late = room.clone();
    assert!(!m.check_room_at(&mut late, "t1", 1_301));
    let refused = m.rejoin_room_at(&mut late, "CODE12".to_string(), "Ben", "t1", 1_301);
    assert!(refused.is_err());
    assert!(m.check_room_at(&mut room, "t1", 1_100));
    let taken = m.rejoin_room_at(&mut room, "CODE12".to_string(), "Ben", "t1", 1_100);
    assert!(taken.is_ok());
    let again = m.rejoin_room_at(&mut room, "CODE12".to_string(), "Ben", "t1", 1_100);
    assert_eq!(again.unwrap_err(), "Seat already in use by another window");
}

#[test]
fn leaving_for_good_is_final() {
    let m = manager();
    let mut room = room_of(&["Ann", "Ben", "Cleo"]);
    let out = m.remove_player_at(&mut room, 1, 1_000).unwrap();
    assert_eq!(out.renumbered, vec![(2, 1)]);
    assert_eq!(
        out.broadcast[1],
        ServerMsg::SeatChanged { renumbered: vec![(2, 1)] }
    );
    assert!(!m.check_room_at(&mut room, "t1", 1_001));
    assert!(m.rejoin_room_at(&mut room, "CODE12".to_string(), "Ben", "t1", 1_001).is_err());
    assert_eq!(m.remove_player_at(&mut room, 7, 1_000).unwrap_err(), "Player not found");
    assert_eq!(m.leave_room_at(&mut room, 7, 1_000).unwrap_err(), "Player not found");
}

#[test]
fn the_crown_goes_to_a_connected_human() {
    let mut room = room_of(&["Ann", "Ben", "Cleo"]);
    room.players[1].connected = false;
    room.transfer_crown_from(0);
    assert!(room.players[2].is_creator);
    assert!(room.state.players[2].is_creator);
    assert!(!room.players[0].is_creator);
}

// Settings and the start

#[test]
fn only_the_host_decides() {
    let m = manager();
    let mut room = room_of(&["Ann", "Ben"]);
    room.set_ready(1, true).unwrap();
    let before = room.clone();
    assert!(m.set_room_settings(&mut room, 1, Some(20), None).is_err());
    assert_eq!(
        m.start_game_at(&mut room, 1, 0).unwrap_err(),
        "Only the room creator can start the game"
    );
    assert_eq!(room, before);
}

#[test]
fn settings_stay_within_limits() {
    let m = manager();
    let mut room = room_of(&["Ann"]);
    for (limit, point) in [(Some(0), None), (Some(121), None), (None, Some(0)), (None, Some(10_000))] {
        assert!(m.set_room_settings(&mut room, 0, limit, point).is_err());
    }
    let out = m.set_room_settings(&mut room, 0, Some(120), Some(1)).unwrap();
    assert_eq!(
        out.reply,
        Some(ServerMsg::RoomSettings { play_limit_secs: 120, winning_point: 1 })
    );
    assert_eq!(room.state.play_limit_secs, 120);
}

#[test]
fn a_start_waits_for_everybody_and_happens_once() {
    let m = manager();
    let mut room = room_of(&["Ann", "Ben"]);
    assert_eq!(m.start_game_at(&mut room, 0, 0).unwrap_err(), "Not all players are ready");
    let out = m.ready_player(&mut room, 1, true).unwrap();
    assert_eq!(
        out.reply,
        Some(ServerMsg::PlayerReady { player_id: 1, name: "Ben".to_string(), ready: true })
    );
    assert!(m.ready_player(&mut room, 9, true).is_err());
    let out = m.start_game_at(&mut room, 0, 500).unwrap();
    assert_eq!(out.broadcast[0], ServerMsg::GameStarted);
    assert_eq!(room.driver.pending, Some(PendingAction::StepThreeDiscard));
    assert_eq!(room.driver.next_action_at_ms, 1_100);
    assert_eq!(m.start_game_at(&mut room, 0, 0).unwrap_err(), "Game already started");
}

#[test]
fn a_won_match_is_closed() {
    let m = manager();
    let mut room = started(&["Ann"]);
    room.state.phase = GamePhase::GameOver;
    room.state.three_discard = None;
    room.state.game_winner = Some(0);
    assert_eq!(
        m.start_game_at(&mut room, 0, 0).unwrap_err(),
        "Match already won — a new game is locked"
    );
}

#[test]
fn the_next_round_continues_the_match() {
    let m = manager();
    let mut room = started(&["Ann"]);
    room.state.phase = GamePhase::GameOver;
    room.state.three_discard = None;
    room.state.finished_order = vec![2, 0, 1, 3];
    room.state.total_scores = vec![5, 0, 10, -15];
    room.state.round = 2;
    assert!(is_startable(&room));
    m.start_game_at(&mut room, 0, 700).unwrap();
    assert_eq!(room.state.phase, GamePhase::Playing);
    assert_eq!(room.state.current_player, 2);
    assert_eq!(room.state.total_scores, vec![5, 0, 10, -15]);
    assert_eq!(room.state.round, 2);
    assert_eq!(room.driver.pending, Some(PendingAction::EnterPlaying));
    assert_eq!(room.driver.next_action_at_ms, 700);
}

// Driving

/// A started room whose discard is over and in which the human at seat 0 is at
/// turn.
fn playing() -> Room {
    let m = manager();
    let mut room = started(&["Ann"]);
    let mut now: u64 = 1_000;
    while room.state.phase == GamePhase::ThreeDiscard {
        now += 100;
        assert!(is_drivable(&room));
        m.drive_room_at(&mut room, now);
    }
    room
}

#[test]
fn a_game_that_is_on_is_never_stranded() {
    let m = manager();
    let mut room = playing();
    room.state.play_limit_secs = 1;
    let mut now: u64 = 100_000;
    let mut rounds = 0;
    while rounds < 10_000 && room.state.phase == GamePhase::Playing {
        let at = &room.state.players[room.state.current_player];
        assert!(!at.finished);
        assert!(
            room.driver.pending.is_some()
                || (!at.is_bot && room.driver.watchdog_turn_seq == Some(room.state.turn_seq))
        );
        now += 50;
        assert!(is_drivable(&room));
        m.drive_room_at(&mut room, now);
        rounds += 1;
    }
    assert_eq!(room.state.phase, GamePhase::GameOver);
    assert_eq!(room.state.finished_order.len(), 4);
    // A round that a bomb ends costs the table five points.
    let sum = room.state.scores.iter().sum::<i32>();
    assert!(sum == 0 || sum == -5);
    assert!(room.driver.pending.is_none());
}

#[test]
fn a_started_round_can_be_driven() {
    let room = started(&["Ann"]);
    assert!(is_drivable(&room));
    assert_eq!(room.driver.pending, Some(PendingAction::StepThreeDiscard));
}

#[test]
fn nothing_is_done_before_it_is_due() {
    let m = manager();
    let mut room = started(&["Ann"]);
    let before = room.clone();
    let out = m.drive_room_at(&mut room, 1_599);
    assert!(out.broadcast.is_empty());
    assert_eq!(room, before);
    let out = m.drive_room_at(&mut room, 1_600);
    assert_eq!(out.broadcast.len(), 1);
    assert_ne!(room, before);
}

#[test]
fn a_discard_is_logged_by_its_count() {
    let m = manager();
    let mut room = started(&["Ann"]);
    let seat = room.state.three_discard.as_ref().unwrap().order[0];
    let count = room.state.three_discard.as_ref().unwrap().player_cards[seat].len();
    let name = room.state.players[seat].name.clone();
    m.drive_room_at(&mut room, 1_600);
    let line = if count > 0 {
        format!("{} discarded their 3s ({} 3s)", name, count)
    } else {
        format!("{} has no 3s", name)
    };
    assert_eq!(room.state.log.last(), Some(&line));
}

#[test]
fn a_human_move_sets_what_comes_next() {
    let m = manager();
    let mut room = playing();
    room.state.current_player = 0;
    room.state.trick.combo_player = None;
    room.state.trick.cards.clear();
    room.state.players[0].hand = vec![
        Card::new(Rank::Four, Suit::Clubs),
        Card::new(Rank::King, Suit::Hearts),
    ];
    let seq = room.state.turn_seq;
    assert!(is_movable(&room.state));
    let out = m.apply_human_move_at(&mut room, 0, Some(vec!["4:clubs".to_string()]), 5_000);
    assert_eq!(out.broadcast.len(), 1);
    assert_eq!(room.state.turn_seq, seq + 1);
    assert_eq!(room.driver.pending, Some(PendingAction::BotTurn));
    assert_eq!(room.driver.next_action_at_ms, 5_100);
    let before = room.clone();
    let out = m.apply_human_move_at(&mut room, 0, None, 5_000);
    assert!(out.broadcast.is_empty());
    assert_eq!(room, before);
}

#[test]
fn moves_in_the_lobby_leave_no_trace() {
    let m = manager();
    let mut room = room_of(&["Ann", "Ben"]);
    let before = room.clone();
    assert!(is_movable(&room.state));
    for cards in [None, Some(Vec::new()), Some(vec!["4:clubs".to_string()])] {
        let out = m.apply_human_move_at(&mut room, 0, cards, 5_000);
        assert!(out.broadcast.is_empty());
        assert_eq!(room, before);
    }
    assert!(is_drivable(&room));
    assert!(m.drive_room_at(&mut room, 5_000).broadcast.is_empty());
    assert_eq!(room, before);
}

#[test]
fn the_first_lead_is_announced() {
    let m = manager();
    let mut room = started(&["Ann"]);
    room.state.phase = GamePhase::Playing;
    room.state.three_discard = None;
    room.state.current_player = 0;
    room.driver.arm_at(PendingAction::EnterPlaying, 0, 1_000);
    let mut later = room.clone();
    m.drive_room_at(&mut room, 1_000);
    assert_eq!(room.state.log.last().unwrap(), "Game starts! Ann leads first trick.");
    assert_eq!(room.driver.watchdog_deadline_ms, Some(11_000));
    later.state.round = 3;
    m.drive_room_at(&mut later, 1_000);
    assert_eq!(later.state.log.last().unwrap(), "Round 3! Ann leads first trick.");
}

// Connections

#[test]
fn connections_follow_their_players() {
    let mut m = manager();
    m.add_session("CODE12".to_string(), 0, 10);
    m.add_session("CODE12".to_string(), 2, 12);
    m.apply_renumbering("CODE12", &vec![(2, 1)]);
    assert_eq!(m.seat_of("CODE12", 12), Some(1));
    assert_eq!(m.seat_of("CODE12", 10), Some(0));
    assert_eq!(m.seat_of("OTHER1", 10), None);
    m.remove_session("CODE12", 12);
    assert_eq!(m.seat_of("CODE12", 12), None);
    m.forget_room("CODE12");
    assert_eq!(m.seat_of("CODE12", 10), None);
}

#[test]
fn everybody_gets_their_own_view() {
    let mut m = manager();
    let mut room = room_of(&["Ann", "Ben"]);
    for (i, p) in room.state.players.iter_mut().enumerate() {
        p.hand = vec![Card::new(Rank::King, Suit::Clubs); i + 1];
    }
    m.add_session("CODE12".to_string(), 0, 10);
    m.add_session("CODE12".to_string(), 1, 11);
    let mut out = MutateOut::default();
    out.tell(ServerMsg::GameStarted);
    out.tell(ServerMsg::State { state: room.state.clone() });
    let sent = m.deliveries("CODE12", &out);
    assert_eq!(sent.len(), 2);
    assert_eq!(sent[0][1].payload.msg, ServerMsg::GameStarted);
    assert_eq!(sent[1][0].session, 10);
    assert_eq!(sent[1][0].payload.hand_counts, vec![1, 2]);
    let ServerMsg::State { state } = &sent[1][1].payload.msg else {
        panic!("Expected State");
    };
    assert!(state.players[0].hand.is_empty());
    assert_eq!(state.players[1].hand.len(), 2);
    assert!(m.deliveries("OTHER1", &out)[0].is_empty());
}

#[test]
fn views_hide_what_others_hold() {
    let mut room = room_of(&["Ann", "Ben"]);
    room.state.players[0].hand = vec![Card::new(Rank::King, Suit::Clubs)];
    room.state.players[1].hand = vec![Card::new(Rank::Ace, Suit::Clubs)];
    let seen = personalise_state(&room.state, 0);
    assert_eq!(personalise_state(&seen, 0), seen);
    let mut other = room.state.clone();
    other.players[1].hand = vec![Card::new(Rank::Four, Suit::Hearts)];
    assert_eq!(personalise_state(&other, 0), seen);
}

// The store

#[test]
fn the_store_gives_back_what_was_saved() {
    let mut rooms = InMemoryStore::new();
    assert!(rooms.get("CODE12").is_none());
    let room = room_of(&["Ann"]);
    rooms.create("CODE12", &room).unwrap();
    assert_eq!(rooms.get("CODE12"), Some(room.clone()));
    assert!(rooms.create("CODE12", &room_of(&["Ben"])).is_err());
    assert_eq!(rooms.get("CODE12"), Some(room));
    rooms.save("CODE12", &room_of(&["Ben"]));
    assert_eq!(rooms.get("CODE12").unwrap().players[0].name, "Ben");
    rooms.save("OTHER1", &room_of(&["Cleo"]));
    let mut codes = rooms.codes();
    codes.sort();
    assert_eq!(codes, vec!["CODE12".to_string(), "OTHER1".to_string()]);
    assert_eq!(health(&rooms).rooms, 2);
    assert_eq!(health(&rooms).status, "ok");
    rooms.delete("CODE12");
    assert!(rooms.get("CODE12").is_none());
    assert!(rooms.get("OTHER1").is_some());
}

#[test]
fn a_step_touches_one_room() {
    let mut m = manager();
    let mut rooms = InMemoryStore::new();
    let before = room_of(&["Ann"]);
    rooms.create("CODE12", &before).unwrap();
    rooms.create("OTHER1", &room_of(&["Cleo"])).unwrap();
    let mut after = before.clone();
    after.add_player("Ben".to_string(), "t1".to_string()).unwrap();
    let kept = MutateOut::default();
    assert_eq!(commit_of(&before, &before, &kept), Commit::Keep);
    assert_eq!(commit_of(&before, &after, &kept), Commit::Save);
    m.finish_step(&mut rooms, "CODE12", &before, &after, &Err("refused".to_string()));
    assert_eq!(rooms.get("CODE12"), Some(before.clone()));
    m.finish_step(&mut rooms, "CODE12", &before, &after, &Ok(kept));
    assert_eq!(rooms.get("CODE12"), Some(after.clone()));
    let mut gone = MutateOut::default();
    gone.removed = true;
    assert_eq!(commit_of(&before, &after, &gone), Commit::Delete);
    m.finish_step(&mut rooms, "CODE12", &before, &after, &Ok(gone));
    assert!(rooms.get("CODE12").is_none());
    assert!(rooms.get("OTHER1").is_some());
    assert_eq!(
        RoomManager::load_room(&rooms, "CODE12").unwrap_err(),
        "Room not found"
    );
}

#[test]
fn generated_codes_and_tokens() {
    let m = manager();
    let code = m.generate_code();
    assert_eq!(code.len(), 6);
    assert!(code.chars().all(|c| c.is_ascii_uppercase() || c.is_ascii_digit()));
    assert_eq!(RoomManager::room_code(&code.to_lowercase()), code);
    assert_eq!(RoomManager::room_code("straße"), "STRASSE");
    let token = RoomManager::generate_token();
    assert_eq!(token.len(), 32);
    assert!(token.chars().all(|c| c.is_ascii_lowercase() || c.is_ascii_digit()));
    assert_ne!(token, RoomManager::generate_token());
}

fn numbered(word: &str) -> Vec<String> {
    (1..=9).map(|i| format!("{}{}", word, i)).collect()
}

#[test]
fn a_new_room_takes_the_first_free_code() {
    let mut rooms = InMemoryStore::new();
    rooms.create("CODE1", &room_of(&["Ben"])).unwrap();
    rooms.create("CODE2", &room_of(&["Cleo"])).unwrap();
    let (codes, tokens) = (numbered("CODE"), numbered("token"));
    let host = "Ann".to_string();
    let (code, seat, msg) =
        RoomManager::create_room_with(&mut rooms, &codes, &tokens, &host, false);
    assert_eq!((code.as_str(), seat), ("CODE3", 0));
    match msg {
        ServerMsg::Created { code, token, is_public, .. } => {
            assert_eq!((code.as_str(), token.as_str(), is_public), ("CODE3", "token3", false));
        }
        other => panic!("{:?}", other),
    }
    let room = rooms.get("CODE3").unwrap();
    assert_eq!(room.players[0].name, "Ann");
    assert_eq!(rooms.get("CODE1").unwrap().players[0].name, "Ben");
}

#[test]
fn a_new_room_needs_a_free_code() {
    let mut rooms = InMemoryStore::new();
    let (codes, tokens) = (numbered("CODE"), numbered("token"));
    for code in &codes {
        rooms.create(code, &room_of(&["Ben"])).unwrap();
    }
    let host = "Ann".to_string();
    let (code, _, msg) = RoomManager::create_room_with(&mut rooms, &codes, &tokens, &host, true);
    assert_eq!(code, "CODE9");
    match msg {
        ServerMsg::Error { message } => {
            assert_eq!(message, "failed to allocate a room code: Room already exists");
        }
        other => panic!("{:?}", other),
    }
    assert_eq!(RoomManager::room_count(&rooms), 9);
    rooms.delete("CODE9");
    RoomManager::create_room_with(&mut rooms, &codes, &tokens, &host, true);
    assert_eq!(rooms.get("CODE9").unwrap().players[0].name, "Ann");
}

#[test]
fn nine_codes_are_tried() {
    assert!(give_up(8, "taken").is_none());
    match give_up(9, "taken") {
        Some(ServerMsg::Error { message }) => {
            assert_eq!(message, "failed to allocate a room code: taken");
        }
        other => panic!("{:?}", other),
    }
}

#[test]
fn a_server_without_connections_rests() {
    assert_eq!(plan_tick(0, 5), TickPlan { drive: false, reap: false, ticks: 5 });
    assert_eq!(plan_tick(1, 0), TickPlan { drive: true, reap: true, ticks: 1 });
    assert_eq!(plan_tick(1, 4), TickPlan { drive: true, reap: false, ticks: 5 });
    assert_eq!(plan_tick(3, 5), TickPlan { drive: true, reap: true, ticks: 6 });
    assert_eq!(health_report(7).rooms, 7);
    assert_eq!(health_report(7).status, "ok");
}

#[test]
fn orphans_are_reaped_at_their_time() {
    let mut m = manager();
    let mut rooms = InMemoryStore::new();
    let mut room = room_of(&["Ann"]);
    room.players[0].connected = false;
    room.record_human_disconnect_at(100);
    rooms.create("CODE12", &room).unwrap();
    rooms.create("OTHER1", &room_of(&["Ben"])).unwrap();
    assert_eq!(m.reap_orphaned_rooms_at(&mut rooms, 129), 0);
    assert_eq!(m.reap_orphaned_rooms_at(&mut rooms, 130), 1);
    assert_eq!(RoomManager::room_codes(&rooms), vec!["OTHER1".to_string()]);
}
