use poker_banting_server::game::bot::bot_play;
use poker_banting_server::game::card::{Card, Rank, Suit};
use poker_banting_server::game::combo;
use poker_banting_server::game::combo::ComboType;
use poker_banting_server::game::room::Room;
use poker_banting_server::game::rules::{
    deal_cards, end_game, resolve_trick, skip_finished, start_three_discard, validate_play,
};
use poker_banting_server::game::state::{GamePhase, GameState, Player, TrickState};
use poker_banting_server::guard::is_aligned;
use poker_banting_server::protocol::ServerMsg;
use poker_banting_server::rooms::RoomManager;
use poker_banting_server::store::{InMemoryStore, MutateOut};

/// A server that keeps its rooms in memory: every request goes to the room under
/// its code, and is put into effect at once.
struct Server {
    manager: RoomManager,
    rooms: InMemoryStore,
}

fn mem(code_len: usize, bot: u64, orphan: u64, lobby: u64) -> Server {
    Server {
        manager: RoomManager::new("test".to_string(), code_len, bot, orphan, lobby),
        rooms: InMemoryStore::new(),
    }
}

impl Server {
    fn step(
        &mut self,
        code: &str,
        take: impl FnOnce(&RoomManager, &mut Room) -> Result<MutateOut, String>,
    ) -> Result<MutateOut, String> {
        let code = RoomManager::room_code(code);
        let mut room = RoomManager::load_room(&self.rooms, &code)?;
        let before = room.clone();
        let result = take(&self.manager, &mut room);
        self.manager.finish_step(&mut self.rooms, &code, &before, &room, &result);
        result
    }

    fn ask(
        &mut self,
        code: &str,
        take: impl FnOnce(&RoomManager, &mut Room) -> Result<MutateOut, String>,
    ) -> Result<ServerMsg, String> {
        self.step(code, take).map(|out| out.reply.unwrap())
    }

    fn create_room(&mut self, name: String, is_public: bool) -> (String, usize, ServerMsg) {
        self.manager.create_room(&mut self.rooms, name, is_public)
    }

    fn join_room(&mut self, code: &str, name: String) -> Result<ServerMsg, String> {
        self.ask(code, |m, room| m.join_room(room, code, name))
    }

    fn leave_room(&mut self, code: &str, id: usize) -> Option<ServerMsg> {
        self.step(code, |m, room| {
            assert!(is_aligned(room));
            m.leave_room(room, id)
        })
        .ok()
        .and_then(|out| out.reply)
    }


    fn get_room(&self, code: &str) -> Option<Room> {
        RoomManager::get_room(&self.rooms, code)
    }
}

fn card(rank: Rank, suit: Suit) -> Card {
    Card::new(rank, suit)
}

fn make_player(id: usize, name: &str, hand: Vec<Card>) -> Player {
    Player {
        id,
        name: name.to_string(),
        hand,
        finished: false,
        is_bot: false,
        connected: true,
        is_creator: false,
    }
}

fn empty_state() -> GameState {
    GameState {
        phase: GamePhase::Playing,
        players: vec![
            make_player(0, "P0", Vec::new()),
            make_player(1, "P1", Vec::new()),
            make_player(2, "P2", Vec::new()),
            make_player(3, "P3", Vec::new()),
        ],
        ready: vec![true; 4],
        current_player: 0,
        trick: TrickState::new(),
        finished_order: Vec::new(),
        scores: vec![0, 0, 0, 0],
        round: 1,
        total_scores: vec![0],
        three_discard: None,
        log: Vec::new(),
        play_limit_secs: 10,
        winning_point: 50,
        game_winner: None,
        turn_seq: 0,
    }
}

#[test]
fn test_full_game_deal_to_gameover() {
    let mut state = empty_state();
    deal_cards(&mut state);

    for p in &state.players {
        assert_eq!(p.hand.len(), 13);
    }

    let total: usize = state.players.iter().map(|p| p.hand.len()).sum();
    assert_eq!(total, 52);
    assert_eq!(state.phase, GamePhase::Playing);
}

#[test]
fn test_three_discard_phase() {
    let mut state = empty_state();

    state.players[0].hand.push(card(Rank::Three, Suit::Spades));
    state.players[0].hand.push(card(Rank::Three, Suit::Hearts));
    state.players[1].hand.push(card(Rank::Three, Suit::Diamonds));

    start_three_discard(&mut state);

    assert_eq!(state.phase, GamePhase::ThreeDiscard);
    let td = state.three_discard.as_ref().unwrap();
    assert_eq!(td.order[0], 0);
}

#[test]
fn test_trick_cycle_basic() {
    let mut state = empty_state();

    let play_cards = vec![card(Rank::King, Suit::Diamonds)];

    state.trick.cards = play_cards.clone();
    state.trick.combo_type = combo::detect_combo(&play_cards).map(|c| c.combo_type);
    state.trick.combo_player = Some(0);
    state.trick.passed = vec![1, 2, 3];

    // P0 has no cards left and is finished before the trick is resolved.
    state.players[0].hand = vec![];
    state.players[0].finished = true;
    state.finished_order.push(0);
    state.scores[0] = 10;

    // Resolving hands the lead to the winner; it goes on to a player with cards.
    resolve_trick(&mut state, 0);
    skip_finished(&mut state);

    assert_eq!(state.finished_order, vec![0]);
    assert_eq!(state.scores[0], 10);
    assert_eq!(state.current_player, 1);
    assert!(state.trick.cards.is_empty());
    assert!(state.trick.combo_player.is_none());
}

#[test]
fn test_scoring_all_positions() {
    let mut state = empty_state();

    // Simulate 3 players finishing
    state.players[0].finished = true;
    state.finished_order.push(0);
    state.scores[0] = 10;

    state.players[1].finished = true;
    state.finished_order.push(1);
    state.scores[1] = 5;

    state.players[2].finished = true;
    state.finished_order.push(2);
    state.scores[2] = 0;

    // end_game sets GameOver and scores the last player
    assert!(end_game(&mut state));
    assert_eq!(state.phase, GamePhase::GameOver);
    // Last player gets -15
    assert_eq!(state.scores[3], -15);
}

#[test]
fn test_bot_plays_free_play() {
    let mut state = empty_state();

    // Give P0 a hand with a pair and singles
    state.players[0].hand = vec![
        card(Rank::Three, Suit::Diamonds),
        card(Rank::Four, Suit::Diamonds),
        card(Rank::Four, Suit::Clubs),
        card(Rank::Five, Suit::Diamonds),
    ];

    let play = bot_play(&state, 0);
    assert!(play.is_some());
    // Bot should play a valid combo
    let indices = play.unwrap();
    let played: Vec<Card> = indices.iter().map(|&i| state.players[0].hand[i].clone()).collect();
    let combo = combo::detect_combo(&played);
    assert!(combo.is_some());
}

#[test]
fn test_bot_passes_when_cannot_beat() {
    let mut state = empty_state();

    state.players[1].hand = vec![
        card(Rank::Three, Suit::Diamonds),
        card(Rank::Three, Suit::Clubs),
    ];

    // P0 plays a high single
    let play_cards = vec![card(Rank::Two, Suit::Spades)];
    state.trick.cards = play_cards;
    state.trick.combo_type = Some(ComboType::Single);
    state.trick.combo_player = Some(0);

    // P1 has only 3s, cannot beat 2
    let play = bot_play(&state, 1);
    assert!(play.is_none());
}

#[test]
fn test_room_create_and_join() {
    let mut rm = mem(6, 2500, 30, 15);

    let (code, pid, _msg) = rm.create_room("Alice".to_string(), true);
    assert_eq!(pid, 0);
    assert_eq!(code.len(), 6);

    let result = rm.join_room(&code, "Bob".to_string());
    assert!(result.is_ok());
    let ServerMsg::Joined { player_id: bob_pid, .. } = result.unwrap() else {
        panic!("Expected Joined message");
    };
    assert_eq!(bob_pid, 1);
}

#[test]
fn test_room_max_players() {
    let mut rm = mem(6, 2500, 30, 15);

    let (code, _, _) = rm.create_room("Alice".to_string(), true); // 1 human + 3 bots
    rm.join_room(&code, "Bob".to_string()).unwrap(); // Replaces bot
    rm.join_room(&code, "Charlie".to_string()).unwrap(); // Replaces bot
    rm.join_room(&code, "Dave".to_string()).unwrap(); // Replaces last bot

    let result = rm.join_room(&code, "Eve".to_string());
    assert!(result.is_err());
}

#[test]
fn test_room_leave_marks_disconnected() {
    let mut rm = mem(6, 2500, 30, 15);

    let (code, _, _) = rm.create_room("Alice".to_string(), true);
    rm.join_room(&code, "Bob".to_string()).unwrap();

    let room = rm.get_room(&code).unwrap();
    assert_eq!(room.players.len(), 2);

    // Non-creator leave in lobby: room stays, player marked disconnected
    rm.leave_room(&code, 1);
    let room = rm.get_room(&code).unwrap();
    assert_eq!(room.players.len(), 2);
    assert!(!room.players[1].connected);
    assert_eq!(room.disconnected_players.len(), 1);
}

#[test]
fn test_room_invalid_code() {
    let mut rm = mem(6, 2500, 30, 15);

    let result = rm.join_room("INVALID", "Alice".to_string());
    assert!(result.is_err());
}

#[test]
fn test_combo_detection_matches_js() {
    assert!(matches!(combo::detect_combo(&[card(Rank::King, Suit::Diamonds)]).unwrap().combo_type, ComboType::Single));

    assert!(matches!(combo::detect_combo(&[card(Rank::King, Suit::Diamonds), card(Rank::King, Suit::Clubs)]).unwrap().combo_type, ComboType::Pair));

    assert!(matches!(combo::detect_combo(&[card(Rank::King, Suit::Diamonds), card(Rank::King, Suit::Clubs), card(Rank::King, Suit::Hearts)]).unwrap().combo_type, ComboType::Triple));

    assert!(matches!(combo::detect_combo(&[card(Rank::Three, Suit::Diamonds), card(Rank::Four, Suit::Diamonds), card(Rank::Five, Suit::Diamonds)]).unwrap().combo_type, ComboType::Straight));

    assert!(matches!(combo::detect_combo(&[card(Rank::Ten, Suit::Diamonds), card(Rank::Jack, Suit::Diamonds), card(Rank::Queen, Suit::Diamonds)]).unwrap().combo_type, ComboType::Straight));

    // Mixed straight (9-10-J) should be rejected
    assert!(combo::detect_combo(&[card(Rank::Nine, Suit::Diamonds), card(Rank::Ten, Suit::Diamonds), card(Rank::Jack, Suit::Diamonds)]).is_none());

    assert!(matches!(combo::detect_combo(&[card(Rank::King, Suit::Diamonds), card(Rank::King, Suit::Clubs), card(Rank::King, Suit::Hearts), card(Rank::Three, Suit::Diamonds), card(Rank::Three, Suit::Clubs)]).unwrap().combo_type, ComboType::FullHouse));

    assert!(matches!(combo::detect_combo(&[card(Rank::King, Suit::Diamonds), card(Rank::King, Suit::Clubs), card(Rank::King, Suit::Hearts), card(Rank::King, Suit::Spades), card(Rank::Three, Suit::Diamonds)]).unwrap().combo_type, ComboType::FourKind));
}

#[test]
fn test_validate_play_matches_js() {
    let result = validate_play(&[card(Rank::King, Suit::Diamonds)], None);
    assert!(result.valid);

    let result = validate_play(&[card(Rank::King, Suit::Diamonds), card(Rank::Ace, Suit::Clubs)], None);
    assert!(!result.valid);

    let table = combo::detect_combo(&[card(Rank::Three, Suit::Diamonds)]).unwrap();
    let result = validate_play(&[card(Rank::King, Suit::Diamonds), card(Rank::King, Suit::Clubs)], Some(&table));
    assert!(!result.valid);

    let table = combo::detect_combo(&[card(Rank::King, Suit::Diamonds)]).unwrap();
    let result = validate_play(&[card(Rank::Three, Suit::Diamonds)], Some(&table));
    assert!(!result.valid);

    let table = combo::detect_combo(&[card(Rank::Three, Suit::Diamonds)]).unwrap();
    let result = validate_play(&[card(Rank::Three, Suit::Spades)], Some(&table));
    assert!(!result.valid);
}
