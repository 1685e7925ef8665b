use poker_banting_server::game::room::Room;
use poker_banting_server::game::rules::finalize_game;
use poker_banting_server::game::state::{now_secs, GamePhase, GameState};
use poker_banting_server::guard::{is_aligned, is_startable};
use poker_banting_server::protocol::ServerMsg;
use poker_banting_server::rooms::{PublicRoomSummary, RoomManager};
use poker_banting_server::store::{InMemoryStore, MutateOut};

/// A server that keeps its rooms in memory: every request goes to the room under
/// its code, and is put into effect at once.
struct Server {
    manager: RoomManager,
    rooms: InMemoryStore,
}

fn mem(code_len: usize, bot: u64, orphan: u64, lobby: u64) -> Server {
    Server {
        manager: RoomManager::new("test".to_string(), code_len, bot, orphan, lobby),
        rooms: InMemoryStore::new(),
    }
}

impl Server {
    fn step(
        &mut self,
        code: &str,
        take: impl FnOnce(&RoomManager, &mut Room) -> Result<MutateOut, String>,
    ) -> Result<MutateOut, String> {
        let code = RoomManager::room_code(code);
        let mut room = RoomManager::load_room(&self.rooms, &code)?;
        let before = room.clone();
        let result = take(&self.manager, &mut room);
        self.manager.finish_step(&mut self.rooms, &code, &before, &room, &result);
        result
    }

    fn ask(
        &mut self,
        code: &str,
        take: impl FnOnce(&RoomManager, &mut Room) -> Result<MutateOut, String>,
    ) -> Result<ServerMsg, String> {
        self.step(code, take).map(|out| out.reply.unwrap())
    }

    fn create_room(&mut self, name: String, is_public: bool) -> (String, usize, ServerMsg) {
        self.manager.create_room(&mut self.rooms, name, is_public)
    }

    fn join_room(&mut self, code: &str, name: String) -> Result<ServerMsg, String> {
        self.ask(code, |m, room| m.join_room(room, code, name))
    }

    fn leave_room(&mut self, code: &str, id: usize) -> Option<ServerMsg> {
        self.step(code, |m, room| {
            assert!(is_aligned(room));
            m.leave_room(room, id)
        })
        .ok()
        .and_then(|out| out.reply)
    }

    fn rejoin_room(&mut self, code: &str, name: &str, token: &str) -> Result<ServerMsg, String> {
        self.ask(code, |m, room| m.rejoin_room(room, code, name, token))
    }

    fn check_room(&mut self, code: &str, token: &str) -> (bool, bool) {
        let mut rejoinable = false;
        let found = self
            .step(code, |m, room| {
                rejoinable = m.check_room(room, token);
                Ok(MutateOut::default())
            })
            .is_ok();
        (found, rejoinable)
    }

    fn remove_player(&mut self, code: &str, id: usize) -> Option<ServerMsg> {
        self.step(code, |m, room| m.remove_player(room, id)).ok().and_then(|out| out.reply)
    }

    fn ready_player(&mut self, code: &str, id: usize, ready: bool) -> Result<ServerMsg, String> {
        self.ask(code, |m, room| m.ready_player(room, id, ready))
    }

    fn start_game(&mut self, code: &str, id: usize) -> Result<ServerMsg, String> {
        self.ask(code, |m, room| {
            assert!(is_startable(room));
            m.start_game(room, id)
        })
    }

    fn get_state(&self, code: &str) -> Option<GameState> {
        RoomManager::get_state(&self.rooms, code)
    }

    fn update_state(&mut self, code: &str, state: GameState) {
        self.step(code, |_, room| {
            room.state = state;
            Ok(MutateOut::default())
        })
        .unwrap();
    }

    fn room_count(&self) -> usize {
        RoomManager::room_count(&self.rooms)
    }

    fn list_public_rooms(&self) -> Vec<PublicRoomSummary> {
        self.manager.list_public_rooms(&self.rooms)
    }

    fn reap_orphaned_rooms_at(&mut self, now: u64) -> usize {
        self.manager.reap_orphaned_rooms_at(&mut self.rooms, now)
    }

    fn expire_disconnected_player(&mut self, code: &str, token: &str) {
        self.step(code, |_, room| {
            for entry in &mut room.disconnected_players {
                if entry.1 == token {
                    entry.2 = now_secs().saturating_sub(1);
                }
            }
            room.cleanup_expired_disconnected(0);
            Ok(MutateOut::default())
        })
        .unwrap();
    }

    fn force_lobby_reap(&mut self, code: &str) {
        self.step(code, |_, room| {
            let (_, renumbered) = room.cleanup_disconnected_lobby_players(0);
            let mut out = MutateOut::default();
            out.renumbered = renumbered;
            out.tell(ServerMsg::State { state: room.state.clone() });
            Ok(out)
        })
        .unwrap();
    }

    fn get_room(&self, code: &str) -> Option<Room> {
        RoomManager::get_room(&self.rooms, code)
    }
}

#[test]
fn test_create_room() {
    let mut manager = mem(6, 0, 30, 15);
    let (code, player_id, msg) = manager.create_room("Alice".to_string(), true);

    assert_eq!(code.len(), 6);
    assert_eq!(player_id, 0);
    assert_eq!(manager.room_count(), 1);

    match msg {
        ServerMsg::Created {
            code: c,
            player_id: pid,
            state,
            ..
        } => {
            assert_eq!(c, code);
            assert_eq!(pid, 0);
            assert_eq!(state.players.len(), 1);
            assert_eq!(state.phase, GamePhase::Lobby);
        }
        _ => panic!("Expected Created"),
    }
}

#[test]
fn test_join_room() {
    let mut manager = mem(6, 0, 30, 15);
    let (code, _, _) = manager.create_room("Alice".to_string(), true);

    let result = manager.join_room(&code, "Bob".to_string());
    assert!(result.is_ok());

    match result.unwrap() {
        ServerMsg::Joined {
            player_id,
            state,
            ..
        } => {
            assert_eq!(player_id, 1);
            assert_eq!(state.players[player_id].name, "Bob");
            assert_eq!(state.players[player_id].is_bot, false);
            assert_eq!(state.players.len(), 2);
            assert_eq!(state.phase, GamePhase::Lobby);
        }
        _ => panic!("Expected Joined"),
    }
}

#[test]
fn test_join_room_not_found() {
    let mut manager = mem(6, 0, 30, 15);
    let result = manager.join_room("XXXXXX", "Bob".to_string());
    assert!(result.is_err());
    assert_eq!(result.unwrap_err(), "Room not found");
}

#[test]
fn test_join_room_full() {
    let mut manager = mem(6, 0, 30, 15);
    let (code, _, _) = manager.create_room("Alice".to_string(), true);
    manager.join_room(&code, "Bob".to_string()).unwrap();
    manager.join_room(&code, "Charlie".to_string()).unwrap();
    manager.join_room(&code, "Dave".to_string()).unwrap();

    let result = manager.join_room(&code, "Eve".to_string());
    assert!(result.is_err());
    assert_eq!(result.unwrap_err(), "Room is full");
}

#[test]
fn rooms_test_start_game() {
    let mut manager = mem(6, 0, 30, 15);
    let (code, _, _) = manager.create_room("Alice".to_string(), true);
    manager.join_room(&code, "Bob".to_string()).unwrap();

    // Not all ready, should fail
    let result = manager.start_game(&code, 0);
    assert!(result.is_err());

    // Ready Bob
    manager.ready_player(&code, 1, true).unwrap();

    // Start game as creator
    let result = manager.start_game(&code, 0);
    assert!(result.is_ok());

    let room = manager.get_room(&code).unwrap();
    assert!(room.started);
    assert_eq!(room.players.len(), 4);
    assert_eq!(room.state.phase, GamePhase::ThreeDiscard);
}

#[test]
fn test_start_game_non_creator() {
    let mut manager = mem(6, 0, 30, 15);
    let (code, _, _) = manager.create_room("Alice".to_string(), true);
    manager.join_room(&code, "Bob".to_string()).unwrap();
    manager.ready_player(&code, 1, true).unwrap();

    let result = manager.start_game(&code, 1);
    assert!(result.is_err());
}

#[test]
fn test_leave_room_creator_dissolves_public() {
    let mut manager = mem(6, 0, 30, 15);
    let (code, _, _) = manager.create_room("Alice".to_string(), true);
    manager.join_room(&code, "Bob".to_string()).unwrap();

    manager.leave_room(&code, 0);
    assert_eq!(manager.room_count(), 0);
}

#[test]
fn test_public_room_listing_only_lobby() {
    let mut manager = mem(6, 0, 30, 15);
    let (code1, _, _) = manager.create_room("Alice".to_string(), true);
    manager.create_room("Bob".to_string(), false);

    let room_list = manager.list_public_rooms();
    assert_eq!(room_list.len(), 1);
    assert_eq!(room_list[0].code, code1);
    assert_eq!(room_list[0].players, 1);
    assert_eq!(room_list[0].phase, "lobby");

    // Start the game, should no longer appear
    manager.start_game(&code1, 0).unwrap();
    let room_list = manager.list_public_rooms();
    assert_eq!(room_list.len(), 0);
}

#[test]
fn test_leave_room() {
    let mut manager = mem(6, 0, 30, 15);
    let (code, _, _) = manager.create_room("Alice".to_string(), true);
    manager.join_room(&code, "Bob".to_string()).unwrap();
    manager.ready_player(&code, 1, true).unwrap();
    manager.start_game(&code, 0).unwrap();

    let result = manager.leave_room(&code, 1);
    assert!(result.is_some());

    match result.unwrap() {
        ServerMsg::PlayerLeft { player_id, name } => {
            assert_eq!(player_id, 1);
            assert_eq!(name, "Bob");
        }
        _ => panic!("Expected PlayerLeft"),
    }

    let room = manager.get_room(&code).unwrap();
    // Human player is auto-replaced by a bot
    assert!(room.players[1].is_bot);
    assert!(room.players[1].connected);
    assert_eq!(room.players[1].name, "Bot (Bob)");
}

#[test]
fn test_get_room() {
    let mut manager = mem(6, 0, 30, 15);
    let (code, _, _) = manager.create_room("Alice".to_string(), true);

    let room = manager.get_room(&code);
    assert!(room.is_some());
    assert_eq!(room.unwrap().code, code);
}

#[test]
fn test_generate_code_length() {
    let mut manager = mem(6, 0, 30, 15);
    let (code, _, _) = manager.create_room("Alice".to_string(), true);
    assert_eq!(code.len(), 6);

    let mut manager2 = mem(8, 0, 30, 15);
    let (code2, _, _) = manager2.create_room("Bob".to_string(), true);
    assert_eq!(code2.len(), 8);
}

#[test]
fn test_multiple_rooms() {
    let mut manager = mem(6, 0, 30, 15);
    let (code1, _, _) = manager.create_room("Alice".to_string(), true);
    let (code2, _, _) = manager.create_room("Bob".to_string(), true);

    assert_ne!(code1, code2);
    assert_eq!(manager.room_count(), 2);
}

#[test]
fn test_update_state() {
    let mut manager = mem(6, 0, 30, 15);
    let (code, _, _) = manager.create_room("Alice".to_string(), true);

    let mut state = manager.get_state(&code).unwrap();
    state.log.push("test".to_string());
    manager.update_state(&code, state);

    let updated = manager.get_state(&code).unwrap();
    assert_eq!(updated.log, vec!["test".to_string()]);
}

#[test]
fn test_code_is_alphanumeric() {
    let mut manager = mem(6, 0, 30, 15);
    let (code, _, _) = manager.create_room("Alice".to_string(), true);
    assert!(code.chars().all(|c| c.is_alphanumeric()));
}

#[test]
fn test_rejoin_restores_seat() {
    let mut manager = mem(6, 0, 30, 15);
    let (code, _, _) = manager.create_room("Alice".to_string(), true);
    let joined_msg = manager.join_room(&code, "Bob".to_string()).unwrap();
    let token = match &joined_msg {
        ServerMsg::Joined { token, .. } => token.clone(),
        _ => panic!("Expected Joined"),
    };

    manager.ready_player(&code, 1, true).unwrap();
    manager.start_game(&code, 0).unwrap();

    manager.leave_room(&code, 1);
    let room = manager.get_room(&code).unwrap();
    assert_eq!(room.disconnected_players.len(), 1);

    let result = manager.rejoin_room(&code, "Bob", &token);
    assert!(result.is_ok());
    match result.unwrap() {
        ServerMsg::Rejoined {
            player_id, state, ..
        } => {
            assert_eq!(player_id, 1);
            assert_eq!(state.players[1].name, "Bob");
            assert!(!state.players[1].is_bot);
            assert!(state.players[1].connected);
        }
        _ => panic!("Expected Rejoined"),
    }

    let room = manager.get_room(&code).unwrap();
    assert!(!room.disconnected_players.iter().any(|(_, t, _)| t == &token));
}

#[test]
fn test_rejoin_not_found() {
    let mut manager = mem(6, 0, 30, 15);
    let (code, _, _) = manager.create_room("Alice".to_string(), true);
    let result = manager.rejoin_room(&code, "Unknown", "nonexistent-token");
    assert!(result.is_err());
}

#[test]
fn test_rejoin_seat_still_connected_reports_in_use() {
    let mut manager = mem(6, 0, 30, 15);
    let (code, _, _) = manager.create_room("Alice".to_string(), true);
    let joined_msg = manager.join_room(&code, "Bob".to_string()).unwrap();
    let token = match &joined_msg {
        ServerMsg::Joined { token, .. } => token.clone(),
        _ => panic!("Expected Joined"),
    };
    let err = manager.rejoin_room(&code, "Bob", &token).unwrap_err();
    assert!(err.contains("in use"), "expected in-use error, got: {err}");
    let room = manager.get_room(&code).unwrap();
    let seat = room
        .players
        .iter()
        .find(|p| p.token.as_deref() == Some(&token))
        .unwrap();
    assert!(seat.connected);
}

#[test]
fn test_check_room_not_found() {
    let mut manager = mem(6, 0, 30, 15);
    let (found, rejoinable) = manager.check_room("NOPE12", "token");
    assert!(!found);
    assert!(!rejoinable);
}

#[test]
fn test_check_room_found_not_rejoinable() {
    let mut manager = mem(6, 0, 30, 15);
    let (code, _, _) = manager.create_room("Alice".to_string(), true);
    manager.join_room(&code, "Bob".to_string()).unwrap();
    let (found, rejoinable) = manager.check_room(&code, "wrong-token");
    assert!(found);
    assert!(!rejoinable);
}

#[test]
fn test_check_room_found_and_rejoinable() {
    let mut manager = mem(6, 0, 30, 15);
    let (code, _, _) = manager.create_room("Alice".to_string(), true);
    let joined_msg = manager.join_room(&code, "Bob".to_string()).unwrap();
    let token = match &joined_msg {
        ServerMsg::Joined { token, .. } => token.clone(),
        _ => panic!("Expected Joined"),
    };

    manager.ready_player(&code, 1, true).unwrap();
    manager.start_game(&code, 0).unwrap();
    manager.leave_room(&code, 1);

    let (found, rejoinable) = manager.check_room(&code, &token);
    assert!(found);
    assert!(rejoinable);

    // READ-ONLY: the probe must NOT have claimed the seat.
    let room = manager.get_room(&code).unwrap();
    assert!(room.disconnected_players.iter().any(|(_, t, _)| t == &token));
}

#[test]
fn test_check_room_case_insensitive_code() {
    let mut manager = mem(6, 0, 30, 15);
    let (code, _, _) = manager.create_room("Alice".to_string(), true);
    let lower = code.to_lowercase();
    let (found, _) = manager.check_room(&lower, "x");
    assert!(found);
}

#[test]
fn test_check_room_expires_stale_seat() {
    let mut manager = mem(6, 0, 30, 15);
    let (code, _, _) = manager.create_room("Alice".to_string(), true);
    let joined_msg = manager.join_room(&code, "Bob".to_string()).unwrap();
    let token = match &joined_msg {
        ServerMsg::Joined { token, .. } => token.clone(),
        _ => panic!("Expected Joined"),
    };

    manager.ready_player(&code, 1, true).unwrap();
    manager.start_game(&code, 0).unwrap();
    manager.leave_room(&code, 1);

    manager.expire_disconnected_player(&code, &token);

    let (found, rejoinable) = manager.check_room(&code, &token);
    assert!(found);
    assert!(!rejoinable);
}

#[test]
fn test_check_room_after_room_removed() {
    let mut manager = mem(6, 0, 0, 0);
    let (code, _, _) = manager.create_room("Alice".to_string(), true);
    manager.leave_room(&code, 0);
    assert_eq!(manager.room_count(), 0);

    let (found, rejoinable) = manager.check_room(&code, "token");
    assert!(!found);
    assert!(!rejoinable);
}

#[test]
fn test_leave_room_tracks_disconnected() {
    let mut manager = mem(6, 0, 30, 15);
    let (code, _, _) = manager.create_room("Alice".to_string(), true);
    let joined_msg = manager.join_room(&code, "Bob".to_string()).unwrap();
    let token = match &joined_msg {
        ServerMsg::Joined { token, .. } => token.clone(),
        _ => panic!("Expected Joined"),
    };

    manager.ready_player(&code, 1, true).unwrap();
    manager.start_game(&code, 0).unwrap();
    manager.leave_room(&code, 1);

    let room = manager.get_room(&code).unwrap();
    assert_eq!(room.disconnected_players.len(), 1);
    assert_eq!(room.disconnected_players[0].0, 1);
    assert_eq!(room.disconnected_players[0].1, token);
}

#[test]
fn test_leave_room_bot_not_tracked() {
    let mut manager = mem(6, 0, 30, 15);
    let (code, _, _) = manager.create_room("Alice".to_string(), true);
    manager.join_room(&code, "Bob".to_string()).unwrap();
    manager.ready_player(&code, 1, true).unwrap();
    manager.start_game(&code, 0).unwrap();

    manager.leave_room(&code, 2);

    let room = manager.get_room(&code).unwrap();
    assert!(room.disconnected_players.is_empty());
}

#[test]
fn test_public_room_listing() {
    let mut manager = mem(6, 0, 30, 15);
    manager.create_room("Alice".to_string(), true);
    manager.create_room("Bob".to_string(), false);

    let room_list = manager.list_public_rooms();
    assert_eq!(room_list.len(), 1);
    assert_eq!(room_list[0].players, 1);
    assert_eq!(room_list[0].max_players, 4);
    assert_eq!(room_list[0].host, "Alice");
    assert_eq!(room_list[0].phase, "lobby");
}

#[test]
fn test_rejoin_timeout_expired() {
    let mut manager = mem(6, 0, 30, 15);
    let (code, _, _) = manager.create_room("Alice".to_string(), true);
    let joined_msg = manager.join_room(&code, "Bob".to_string()).unwrap();
    let token = match &joined_msg {
        ServerMsg::Joined { token, .. } => token.clone(),
        _ => panic!("Expected Joined"),
    };

    manager.ready_player(&code, 1, true).unwrap();
    manager.start_game(&code, 0).unwrap();
    manager.leave_room(&code, 1);
    let room = manager.get_room(&code).unwrap();
    assert_eq!(room.disconnected_players.len(), 1);

    manager.expire_disconnected_player(&code, &token);
    let room = manager.get_room(&code).unwrap();
    assert!(room.disconnected_players.is_empty());

    let result = manager.rejoin_room(&code, "Bob", &token);
    assert!(result.is_err());
}

#[test]
fn test_full_rejoin_flow() {
    let mut manager = mem(6, 0, 30, 15);
    let (code, _, _) = manager.create_room("Alice".to_string(), true);
    let joined_msg = manager.join_room(&code, "Bob".to_string()).unwrap();
    let token = match &joined_msg {
        ServerMsg::Joined { token, .. } => token.clone(),
        _ => panic!("Expected Joined"),
    };

    manager.ready_player(&code, 1, true).unwrap();
    manager.start_game(&code, 0).unwrap();
    manager.leave_room(&code, 1);

    let result = manager.rejoin_room(&code, "Bob", &token);
    assert!(result.is_ok());
    match result.unwrap() {
        ServerMsg::Rejoined { player_id, state, .. } => {
            assert_eq!(player_id, 1);
            assert_eq!(state.players[1].name, "Bob");
            assert!(state.players[1].connected);
        }
        _ => panic!("Expected Rejoined"),
    }

    let room = manager.get_room(&code).unwrap();
    assert!(!room.disconnected_players.iter().any(|(_, t, _)| t == &token));
}

#[test]
fn test_orphaned_room_removed_immediate() {
    let mut manager = mem(6, 0, 0, 0);

    let (code, _, _) = manager.create_room("Alice".to_string(), true);
    manager.join_room(&code, "Bob".to_string()).unwrap();
    manager.ready_player(&code, 1, true).unwrap();
    manager.start_game(&code, 0).unwrap();

    manager.leave_room(&code, 1);
    assert_eq!(manager.room_count(), 1);

    manager.leave_room(&code, 0);
    assert_eq!(manager.room_count(), 0);
}

#[test]
fn test_orphaned_room_not_removed_within_timeout() {
    let mut manager = mem(6, 0, 60, 15);

    let (code, _, _) = manager.create_room("Alice".to_string(), true);
    manager.join_room(&code, "Bob".to_string()).unwrap();
    manager.ready_player(&code, 1, true).unwrap();
    manager.start_game(&code, 0).unwrap();

    manager.leave_room(&code, 1);
    assert_eq!(manager.room_count(), 1);

    manager.leave_room(&code, 0);
    assert_eq!(manager.room_count(), 1);
}

#[test]
fn test_reaper_drops_orphaned_rooms() {
    let mut manager = mem(6, 0, 1, 15);

    let (code, _, _) = manager.create_room("Alice".to_string(), false);
    manager.join_room(&code, "Bob".to_string()).unwrap();
    manager.ready_player(&code, 1, true).unwrap();
    manager.start_game(&code, 0).unwrap();

    manager.leave_room(&code, 1); // Bob -> bot, Alice still connected
    assert_eq!(manager.room_count(), 1);
    manager.leave_room(&code, 0); // Alice -> bot, room now orphaned

    // Not removed *at* the disconnect (timer is 0s old).
    assert_eq!(manager.room_count(), 1);

    // Let the orphan timer mature (timeout = 1s).
    let dropped = manager.reap_orphaned_rooms_at(now_secs() + 2);
    assert_eq!(dropped, 1);
    assert_eq!(manager.room_count(), 0);
    assert_eq!(manager.get_state(&code), None);
}

#[test]
fn test_reaper_keeps_room_with_connected_human() {
    let mut manager = mem(6, 0, 1, 15);

    let (code, _, _) = manager.create_room("Alice".to_string(), false);
    manager.join_room(&code, "Bob".to_string()).unwrap();
    manager.ready_player(&code, 1, true).unwrap();
    manager.start_game(&code, 0).unwrap();

    manager.leave_room(&code, 1); // Bob -> bot, Alice still connected
    let dropped = manager.reap_orphaned_rooms_at(now_secs() + 2);
    assert_eq!(dropped, 0);
    assert_eq!(manager.room_count(), 1);
    assert!(manager.get_state(&code).is_some());
}

#[test]
fn test_rejoin_resets_orphan_timer() {
    let mut manager = mem(6, 0, 0, 0);

    let (code, _, _) = manager.create_room("Alice".to_string(), true);
    let joined_msg = manager.join_room(&code, "Bob".to_string()).unwrap();
    let token = match &joined_msg {
        ServerMsg::Joined { token, .. } => token.clone(),
        _ => panic!("Expected Joined"),
    };

    manager.ready_player(&code, 1, true).unwrap();
    manager.start_game(&code, 0).unwrap();

    manager.leave_room(&code, 1);
    assert_eq!(manager.room_count(), 1);

    let result = manager.rejoin_room(&code, "Bob", &token);
    assert!(result.is_ok());
    assert_eq!(manager.room_count(), 1);
}

#[test]
fn test_orphaned_room_removed_in_lobby() {
    let mut manager = mem(6, 0, 0, 0);

    let (code, _, _) = manager.create_room("Alice".to_string(), true);
    manager.join_room(&code, "Bob".to_string()).unwrap();

    manager.leave_room(&code, 1);
    assert_eq!(manager.room_count(), 1);

    manager.leave_room(&code, 0);
    assert_eq!(manager.room_count(), 0);
}

#[test]
fn test_lobby_disconnected_player_removed_after_timeout() {
    let mut manager = mem(6, 0, 60, 0);

    let (code, _, _) = manager.create_room("Alice".to_string(), false);
    manager.join_room(&code, "Bob".to_string()).unwrap();
    manager.join_room(&code, "Charlie".to_string()).unwrap();

    assert_eq!(manager.get_room(&code).unwrap().players.len(), 3);

    // lobby timeout 0: Alice's socket drop reaps her seat immediately.
    manager.leave_room(&code, 0);

    assert_eq!(manager.room_count(), 1);
    let room = manager.get_room(&code).unwrap();
    assert!(!room.players.iter().any(|p| p.name == "Alice"));
    assert_eq!(room.players.len(), 2);
}

#[test]
fn test_remove_player_instant_from_lobby() {
    let mut manager = mem(6, 0, 30, 15);

    let (code, _, _) = manager.create_room("Alice".to_string(), true);
    manager.join_room(&code, "Bob".to_string()).unwrap();

    let result = manager.remove_player(&code, 1);
    assert!(result.is_some());

    let room = manager.get_room(&code).unwrap();
    assert_eq!(room.players.len(), 1);
    assert_eq!(room.players[0].name, "Alice");
}

#[test]
fn test_remove_player_creator_dissolves_public() {
    let mut manager = mem(6, 0, 30, 15);

    let (code, _, _) = manager.create_room("Alice".to_string(), true);
    manager.join_room(&code, "Bob".to_string()).unwrap();

    let result = manager.remove_player(&code, 0);
    assert!(result.is_some());

    assert_eq!(manager.room_count(), 0);
}

#[test]
fn test_remove_player_transfers_creator_private() {
    let mut manager = mem(6, 0, 30, 15);

    let (code, _, _) = manager.create_room("Alice".to_string(), false);
    manager.join_room(&code, "Bob".to_string()).unwrap();

    let result = manager.remove_player(&code, 0);
    assert!(result.is_some());

    let room = manager.get_room(&code).unwrap();
    assert_eq!(room.players.len(), 1);
    assert_eq!(room.players[0].name, "Bob");
    assert!(room.players[0].is_creator);
}

#[test]
fn test_remove_player_lobby_renumbers_all_parallel_arrays() {
    let mut manager = mem(6, 0, 30, 15);

    let (code, _, _) = manager.create_room("Alice".to_string(), false);
    manager.join_room(&code, "Bob".to_string()).unwrap();
    manager.join_room(&code, "Charlie".to_string()).unwrap();

    manager.remove_player(&code, 1); // Bob (seat 1) leaves

    manager.join_room(&code, "Dave".to_string()).unwrap();

    let room = manager.get_room(&code).unwrap();
    assert_eq!(room.players.len(), room.state.players.len());
    assert_eq!(room.players.len(), room.ready.len());
    assert_eq!(room.players.len(), room.state.ready.len());
    assert_eq!(room.players.len(), room.state.scores.len());
    let mut ids: Vec<usize> = room.players.iter().map(|p| p.id).collect();
    ids.sort();
    assert_eq!(ids, vec![0, 1, 2]);
    let mut sids: Vec<usize> = room.state.players.iter().map(|p| p.id).collect();
    sids.sort();
    assert_eq!(sids, vec![0, 1, 2]);
    assert!(room
        .players
        .iter()
        .zip(room.state.players.iter())
        .all(|(a, b)| a.id == b.id));
    let dave = room.players.iter().find(|p| p.name == "Dave").unwrap();
    assert!(!room.ready[dave.id]);
    assert!(!room.state.ready[dave.id]);

    for p in room.players.iter() {
        if !p.is_bot {
            manager.ready_player(&code, p.id, true).unwrap();
        }
    }
    let creator = room.players.iter().find(|p| p.is_creator).unwrap();
    assert!(manager.start_game(&code, creator.id).is_ok());
}

#[test]
fn test_remove_player_creator_transfer_reaches_state_players() {
    let mut manager = mem(6, 0, 30, 15);

    let (code, _, _) = manager.create_room("Alice".to_string(), false);
    manager.join_room(&code, "Bob".to_string()).unwrap();

    manager.remove_player(&code, 0); // creator Alice leaves (private room)

    let room = manager.get_room(&code).unwrap();
    assert_eq!(room.players.len(), 1);
    let bob_state = room
        .state
        .players
        .iter()
        .find(|p| p.name == "Bob")
        .unwrap();
    assert!(
        bob_state.is_creator,
        "crown must be visible in state.players (what the client renders)"
    );
    assert_eq!(room.state.ready.len(), 1);
    assert_eq!(room.state.scores.len(), 1);
    assert!(room.state.ready[0]); // Bob keeps a usable ready state
}

#[test]
fn test_lobby_disconnect_reap_frees_seat_without_stealing() {
    let mut manager = mem(6, 0, 30, 1); // 1s lobby timeout

    let (code, _, _) = manager.create_room("Alice".to_string(), true);
    let bob_token = match manager.join_room(&code, "Bob".to_string()).unwrap() {
        ServerMsg::Joined { token, .. } => token,
        _ => panic!("Expected Joined"),
    };
    manager.leave_room(&code, 1); // socket drop: seat marked disconnected
    // Force the lobby reaper NOW (timeout 0 -> everything reaped).
    manager.force_lobby_reap(&code);

    manager.join_room(&code, "Dave".to_string()).unwrap();
    let room = manager.get_room(&code).unwrap();
    let dave = room.players.iter().find(|p| p.name == "Dave").unwrap();

    // Bob's token must not be able to reclaim Dave's seat.
    let rejoin = manager.rejoin_room(&code, "Bob", &bob_token);
    let room2 = manager.get_room(&code).unwrap();
    let dave2 = room2
        .players
        .iter()
        .find(|p| p.id == dave.id)
        .unwrap();
    assert_eq!(dave2.name, "Dave", "rejoin must not steal a compacted seat");
    if let Ok(ServerMsg::Rejoined { player_id, .. }) = rejoin {
        assert_ne!(player_id, dave.id);
    }
}

#[test]
fn test_leave_room_creator_drop_transfers_crown_to_state() {
    let mut manager = mem(6, 0, 30, 1); // 1s lobby timeout

    let (code, _, _) = manager.create_room("Alice".to_string(), false); // private
    manager.join_room(&code, "Bob".to_string()).unwrap();

    manager.leave_room(&code, 0); // creator's socket drops

    // Force the lobby reaper (timeout 0 -> instant).
    manager.force_lobby_reap(&code);

    let room = manager.get_room(&code).unwrap();
    let bob_state = room
        .state
        .players
        .iter()
        .find(|p| p.name == "Bob")
        .unwrap();
    assert!(
        bob_state.is_creator,
        "crown must reach state.players (what the client renders) after a creator socket drop"
    );
    // And the room must actually be startable afterwards.
    assert!(manager.start_game(&code, 0).is_ok());
}

#[test]
fn test_remove_player_bot_returns_none() {
    let mut manager = mem(6, 0, 30, 15);

    let (code, _, _) = manager.create_room("Alice".to_string(), true);
    manager.join_room(&code, "Bob".to_string()).unwrap();
    manager.ready_player(&code, 1, true).unwrap();
    manager.start_game(&code, 0).unwrap();

    let room = manager.get_room(&code).unwrap();
    let bot_id = room.players.iter().position(|p| p.is_bot).unwrap();

    assert!(manager.remove_player(&code, bot_id).is_none());
}

#[test]
fn test_remove_player_mid_game_becomes_bot() {
    let mut manager = mem(6, 0, 30, 15);

    let (code, _, _) = manager.create_room("Alice".to_string(), true);
    manager.join_room(&code, "Bob".to_string()).unwrap();
    manager.ready_player(&code, 1, true).unwrap();
    manager.start_game(&code, 0).unwrap();

    let result = manager.remove_player(&code, 1);
    assert!(result.is_some());

    let room = manager.get_room(&code).unwrap();
    assert_eq!(room.players.len(), 4);
    let leaver = room.players.iter().find(|p| p.id == 1).unwrap();
    assert!(leaver.is_bot);
    assert_eq!(leaver.name, "Bot (Bob)");
    assert!(leaver.connected);
    let state_leaver = room.state.players.iter().find(|p| p.id == 1).unwrap();
    assert!(state_leaver.is_bot);
    assert_eq!(state_leaver.name, "Bot (Bob)");
}

#[test]
fn test_start_game_rejected_mid_round() {
    let mut mgr = mem(6, 100, 60, 30);
    let (code, pid, _msg) = mgr.create_room("Host".to_string(), true);
    // Start the round 1 (phase ThreeDiscard).
    let msg = mgr.start_game(&code, pid).unwrap();
    assert!(matches!(msg, ServerMsg::State { .. }));
    // A stray StartGame mid-round must be rejected, not re-deal.
    let result = mgr.start_game(&code, pid);
    assert!(result.is_err(), "mid-round StartGame must be rejected");
}

#[test]
fn test_start_game_from_gameover_continues() {
    let mut mgr = mem(6, 100, 60, 30);
    let (code, pid, _msg) = mgr.create_room("Host".to_string(), true);
    let _ = mgr.start_game(&code, pid).unwrap();

    // Finish round 1 so the room sits in GameOver. The realizer does the
    // total-score accumulation AND the round bump (round 1 -> 2).
    mgr.step(&code, |_, room| {
        room.state.scores = vec![10, 5, 0, -15];
        room.state.finished_order = vec![0, 1, 2];
        for i in 0..3 {
            room.state.players[i].finished = true;
        }
        assert!(finalize_game(&mut room.state));
        assert_eq!(room.state.round, 2);
        Ok(MutateOut::default())
    })
    .unwrap();

    // Creator starts again: round 2, no 3-discard, cumulative scores kept.
    let msg = mgr.start_game(&code, pid).unwrap();
    match msg {
        ServerMsg::State { state } => {
            assert_eq!(state.round, 2);
            assert_eq!(state.phase, GamePhase::Playing);
            assert!(state.three_discard.is_none());
            assert_eq!(state.total_scores, vec![10, 5, 0, -15]);
            assert_eq!(state.scores, vec![0, 0, 0, 0]);
            assert_eq!(state.current_player, 0);
            assert!(state.ready.iter().all(|&r| r));
        }
        other => panic!("expected State, got {:?}", other),
    }
}
