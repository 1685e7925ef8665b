use poker_banting_server::game::card::{Card, Rank, Suit};
use poker_banting_server::game::combo;
use poker_banting_server::game::combo::ComboType;
use poker_banting_server::game::room::Room;
use poker_banting_server::game::rules::{finalize_game, idle_auto_move, maybe_end_game_by_bomb};
use poker_banting_server::game::state::{now_millis, GamePhase, GameState, Player, TrickState};
use poker_banting_server::guard::{is_aligned, is_drivable, is_startable};
use poker_banting_server::protocol::ServerMsg;
use poker_banting_server::rooms::RoomManager;
use poker_banting_server::store::{InMemoryStore, MutateOut};

/// A server that keeps its rooms in memory: every request goes to the room under
/// its code, and is put into effect at once.
struct Server {
    manager: RoomManager,
    rooms: InMemoryStore,
}

fn mem(code_len: usize, bot: u64, orphan: u64, lobby: u64) -> Server {
    Server {
        manager: RoomManager::new("test".to_string(), code_len, bot, orphan, lobby),
        rooms: InMemoryStore::new(),
    }
}

impl Server {
    fn step(
        &mut self,
        code: &str,
        take: impl FnOnce(&RoomManager, &mut Room) -> Result<MutateOut, String>,
    ) -> Result<MutateOut, String> {
        let code = RoomManager::room_code(code);
        let mut room = RoomManager::load_room(&self.rooms, &code)?;
        let before = room.clone();
        let result = take(&self.manager, &mut room);
        self.manager.finish_step(&mut self.rooms, &code, &before, &room, &result);
        result
    }

    fn ask(
        &mut self,
        code: &str,
        take: impl FnOnce(&RoomManager, &mut Room) -> Result<MutateOut, String>,
    ) -> Result<ServerMsg, String> {
        self.step(code, take).map(|out| out.reply.unwrap())
    }

    fn create_room(&mut self, name: String, is_public: bool) -> (String, usize, ServerMsg) {
        self.manager.create_room(&mut self.rooms, name, is_public)
    }

    fn join_room(&mut self, code: &str, name: String) -> Result<ServerMsg, String> {
        self.ask(code, |m, room| m.join_room(room, code, name))
    }

    fn leave_room(&mut self, code: &str, id: usize) -> Option<ServerMsg> {
        self.step(code, |m, room| {
            assert!(is_aligned(room));
            m.leave_room(room, id)
        })
        .ok()
        .and_then(|out| out.reply)
    }

    fn start_game(&mut self, code: &str, id: usize) -> Result<ServerMsg, String> {
        self.ask(code, |m, room| {
            assert!(is_startable(room));
            m.start_game(room, id)
        })
    }

    fn set_room_settings(
        &mut self,
        code: &str,
        id: usize,
        limit: Option<u32>,
        point: Option<u32>,
    ) -> Result<ServerMsg, String> {
        self.ask(code, |m, room| m.set_room_settings(room, id, limit, point))
    }

    fn get_state(&self, code: &str) -> Option<GameState> {
        RoomManager::get_state(&self.rooms, code)
    }

    fn update_state(&mut self, code: &str, state: GameState) {
        self.step(code, |_, room| {
            room.state = state;
            Ok(MutateOut::default())
        })
        .unwrap();
    }

    fn drive_room_at(&mut self, code: &str, now: u64) {
        self.step(code, |m, room| {
            assert!(is_drivable(room));
            Ok(m.drive_room_at(room, now))
        })
        .unwrap();
    }

    fn get_room(&self, code: &str) -> Option<Room> {
        RoomManager::get_room(&self.rooms, code)
    }
}

fn card(rank: Rank, suit: Suit) -> Card {
    Card::new(rank, suit)
}

fn make_player(id: usize, name: &str, hand: Vec<Card>) -> Player {
    Player {
        id,
        name: name.to_string(),
        hand,
        finished: false,
        is_bot: false,
        connected: true,
        is_creator: false,
    }
}

fn empty_state() -> GameState {
    GameState {
        phase: GamePhase::Playing,
        players: vec![
            make_player(0, "P0", Vec::new()),
            make_player(1, "P1", Vec::new()),
            make_player(2, "P2", Vec::new()),
            make_player(3, "P3", Vec::new()),
        ],
        ready: vec![true; 4],
        current_player: 0,
        trick: TrickState::new(),
        finished_order: Vec::new(),
        scores: vec![0, 0, 0, 0],
        round: 1,
        total_scores: vec![0, 0, 0, 0],
        three_discard: None,
        log: Vec::new(),
        play_limit_secs: 10,
        winning_point: 50,
        game_winner: None,
        turn_seq: 0,
    }
}

#[test]
fn test_set_room_settings_host_only() {
    let mut manager = mem(6, 2500, 30, 15);
    let (code, _, _) = manager.create_room("Alice".to_string(), true);
    manager.join_room(&code, "Bob".to_string()).unwrap();

    // Non-creator is rejected.
    assert!(manager.set_room_settings(&code, 1, Some(5), None).is_err());

    // Creator can set both.
    manager.set_room_settings(&code, 0, Some(5), Some(100)).unwrap();
    let st = manager.get_state(&code).unwrap();
    assert_eq!(st.play_limit_secs, 5);
    assert_eq!(st.winning_point, 100);

    // Partial update keeps the other value.
    manager.set_room_settings(&code, 0, Some(30), None).unwrap();
    let st = manager.get_state(&code).unwrap();
    assert_eq!(st.play_limit_secs, 30);
    assert_eq!(st.winning_point, 100);
}

#[test]
fn test_set_room_settings_clamps_and_requires_value() {
    let mut manager = mem(6, 2500, 30, 15);
    let (code, _, _) = manager.create_room("Alice".to_string(), true);

    // Out-of-range rejected: 0s, >120s, 0 points, >9999 points.
    assert!(manager.set_room_settings(&code, 0, Some(0), None).is_err());
    assert!(manager.set_room_settings(&code, 0, Some(121), None).is_err());
    assert!(manager.set_room_settings(&code, 0, None, Some(0)).is_err());
    assert!(manager.set_room_settings(&code, 0, None, Some(10000)).is_err());
    // Nothing at all is also an error (nothing to set).
    assert!(manager.set_room_settings(&code, 0, None, None).is_err());

    // Boundaries accepted.
    manager.set_room_settings(&code, 0, Some(1), Some(9999)).unwrap();
    let st = manager.get_state(&code).unwrap();
    assert_eq!(st.play_limit_secs, 1);
    assert_eq!(st.winning_point, 9999);
}

#[test]
fn test_set_room_settings_only_in_lobby_or_gameover() {
    let mut manager = mem(6, 2500, 30, 15);
    let (code, _, _) = manager.create_room("Alice".to_string(), true);

    // Works in Lobby.
    manager.set_room_settings(&code, 0, Some(7), None).unwrap();

    // Not mid-round.
    let mut st = manager.get_state(&code).unwrap();
    st.phase = GamePhase::Playing;
    manager.update_state(&code, st);
    assert!(manager.set_room_settings(&code, 0, Some(7), None).is_err());
}

#[test]
fn test_idle_auto_move_leads_with_lowest_single() {
    let mut s = empty_state();
    s.players[0].hand = vec![
        card(Rank::Ace, Suit::Spades),
        card(Rank::Five, Suit::Hearts),
        card(Rank::King, Suit::Diamonds),
    ];
    let move_ = idle_auto_move(&s, 0).unwrap();
    assert_eq!(move_, vec!["5:hearts".to_string()]);
}

#[test]
fn test_idle_auto_move_passes_when_cannot_beat() {
    let mut s = empty_state();
    s.players[0].hand = vec![card(Rank::Three, Suit::Spades), card(Rank::Four, Suit::Hearts)];
    // P1 leads a King on the table.
    s.trick.cards = vec![card(Rank::King, Suit::Hearts)];
    s.trick.combo_type = Some(combo::detect_combo(&s.trick.cards).unwrap().combo_type.clone());
    s.trick.combo_player = Some(1);
    assert_eq!(idle_auto_move(&s, 0), None);
}

#[test]
fn test_idle_auto_move_beats_with_lowest_valid_single() {
    let mut s = empty_state();
    s.players[0].hand = vec![
        card(Rank::Five, Suit::Spades),
        card(Rank::Nine, Suit::Hearts),
        card(Rank::Jack, Suit::Diamonds),
    ];
    // P1 leads a 7 on the table.
    s.trick.cards = vec![card(Rank::Seven, Suit::Clubs)];
    s.trick.combo_type = Some(combo::detect_combo(&s.trick.cards).unwrap().combo_type.clone());
    s.trick.combo_player = Some(1);
    let move_ = idle_auto_move(&s, 0).unwrap();
    assert_eq!(move_, vec!["9:hearts".to_string()]);
}

#[test]
fn test_watchdog_auto_moves_stalled_human() {
    let mut manager = mem(6, 200, 30, 15);
    let (code, _, _) = manager.create_room("Alice".to_string(), true);

    // Tiny turn limit so the test is quick.
    manager.set_room_settings(&code, 0, Some(1), None).unwrap();

    manager.start_game(&code, 0).unwrap();
    let start = now_millis();
    // Drive the discard of the threes to its end: nobody has played a card yet.
    let mut waited: u64 = 0;
    while manager.get_state(&code).unwrap().phase == GamePhase::ThreeDiscard && waited < 10_000 {
        waited += 100;
        manager.drive_room_at(&code, start + waited);
    }
    let st = manager.get_state(&code).unwrap();
    assert_eq!(st.phase, GamePhase::Playing);
    let start_hand = st.players[0].hand.len();

    // No human input. Let time pass until a move is made for the human, for 8s
    // at most (fail).
    let deadline = waited + 8_000;
    let mut moved = false;
    while waited < deadline {
        waited += 150;
        manager.drive_room_at(&code, start + waited);
        let st = manager.get_state(&code).unwrap();
        if st.players[0].hand.len() < start_hand
            || st.log.iter().any(|l| l.contains("time limit"))
        {
            moved = true;
            break;
        }
    }
    assert!(moved, "watchdog should auto-move the stalled human");

    let st = manager.get_state(&code).unwrap();
    assert!(
        st.log.iter().any(|l| l.contains("time limit")),
        "auto-move must be logged, log = {:?}",
        st.log
    );
}

#[test]
fn test_finalize_game_sets_match_winner_at_target() {
    let mut s = empty_state();
    s.total_scores = vec![40, 10, 5, 0];
    // P0 finishes 1st this round (+10) -> 50 >= 50 -> match winner.
    s.players[0].finished = true;
    s.finished_order.push(0);
    s.scores[0] = 10;
    s.players[1].finished = true;
    s.finished_order.push(1);
    s.scores[1] = 5;
    s.players[2].finished = true;
    s.finished_order.push(2);
    s.scores[2] = 0;

    let ended = finalize_game(&mut s);
    assert!(ended);
    assert_eq!(s.phase, GamePhase::GameOver);
    assert_eq!(s.total_scores[0], 50);
    assert_eq!(s.game_winner, Some(0));
}

#[test]
fn test_no_match_winner_below_target() {
    let mut s = empty_state();
    s.total_scores = vec![39, 10, 5, 0];
    s.players[0].finished = true;
    s.finished_order.push(0);
    s.scores[0] = 10;
    s.players[1].finished = true;
    s.finished_order.push(1);
    s.scores[1] = 5;
    s.players[2].finished = true;
    s.finished_order.push(2);
    s.scores[2] = 0;

    finalize_game(&mut s);
    assert_eq!(s.total_scores[0], 49);
    assert_eq!(s.game_winner, None);
}

#[test]
fn test_bomb_endgame_sets_match_winner() {
    let mut s = empty_state();
    s.total_scores = vec![0, 40, 5, 0];
    // P1 (bomber, +10) reaches 50 via a bomb endgame.
    s.players[0].hand = vec![card(Rank::Three, Suit::Spades)];
    s.players[1].hand = vec![card(Rank::Four, Suit::Spades)];
    s.players[2].hand = vec![card(Rank::Five, Suit::Spades)];
    s.players[3].hand = vec![card(Rank::Six, Suit::Spades)];
    s.trick.cards = vec![
        card(Rank::King, Suit::Spades),
        card(Rank::King, Suit::Hearts),
        card(Rank::King, Suit::Diamonds),
        card(Rank::King, Suit::Clubs),
    ];
    s.trick.combo_type = Some(ComboType::Bomb);
    s.trick.combo_player = Some(1);
    s.trick.played = vec![0]; // P0 held the single 2, pushed out by the bomb
    s.trick.passed = vec![2, 3, 0]; // P2, P3 and P0 all passed after the bomb

    let ended = maybe_end_game_by_bomb(&mut s);
    assert!(ended);
    assert_eq!(s.scores[1], 10);
    assert_eq!(s.total_scores[1], 50);
    assert_eq!(s.game_winner, Some(1));
}

#[test]
fn test_start_game_blocked_after_match_winner() {
    let mut manager = mem(6, 2500, 30, 15);
    let (code, _, _) = manager.create_room("Alice".to_string(), true);

    let mut st = manager.get_state(&code).unwrap();
    st.phase = GamePhase::GameOver;
    st.game_winner = Some(1);
    manager.update_state(&code, st);

    let err = manager.start_game(&code, 0).unwrap_err();
    assert!(
        err.contains("Match already won"),
        "expected match-won rejection, got: {err}"
    );
}
