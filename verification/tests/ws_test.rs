use poker_banting_server::config::{resolve_port, Config, Vars};
use poker_banting_server::game::card::{Card, Rank, Suit};
use poker_banting_server::game::room::Room;
use poker_banting_server::protocol::{ClientMsg, ServerMsg};
use poker_banting_server::pubsub::{
    channel_code, events_pattern, next_backoff, wait_now, FIRST_BACKOFF_MS,
};
use poker_banting_server::rooms::RoomManager;
use poker_banting_server::store::{
    codes_key, events_key, lock_key, room_key, room_ttl_secs, store_kind, PubEnvelope, StoreKind,
};
use poker_banting_server::text::{decimal_text, join_texts, parse_number, signed_text};
use poker_banting_server::ws::{Action, Connection};

fn joined(player_id: usize) -> ServerMsg {
    let mut room = Room::new("CODE12".to_string(), "Ann".to_string(), "t0".to_string());
    room.add_player("Ben".to_string(), "t1".to_string()).unwrap();
    for p in room.state.players.iter_mut() {
        p.hand = vec![Card::new(Rank::King, Suit::Clubs)];
    }
    ServerMsg::Joined {
        player_id,
        state: room.state,
        code: "CODE12".to_string(),
        token: "t1".to_string(),
    }
}

fn seated() -> Connection {
    let mut conn = Connection::new();
    let entrance = conn.on_joined("code12", Ok(joined(1)));
    assert_eq!(entrance.session, Some(("CODE12".to_string(), 1)));
    conn
}

// Connections

#[test]
fn without_a_seat_nothing_is_moved() {
    let mut conn = Connection::new();
    for msg in [
        ClientMsg::Pass,
        ClientMsg::Play { cards: vec!["4:clubs".to_string()] },
        ClientMsg::Ready { ready: true },
        ClientMsg::StartGame,
        ClientMsg::SetRoomSettings { play_limit_secs: Some(5), winning_point: None },
    ] {
        assert!(matches!(conn.on_message(msg), Action::Ignore));
    }
    assert!(matches!(
        conn.on_message(ClientMsg::Create { name: "Ann".to_string(), is_public: true }),
        Action::Create { is_public: true, .. }
    ));
    assert!(matches!(
        conn.on_message(ClientMsg::Ping),
        Action::Reply { msg: ServerMsg::Pong }
    ));
    assert!(matches!(conn.on_message(ClientMsg::LeaveRoom), Action::Close));
}

#[test]
fn a_client_acts_in_their_own_name() {
    let mut conn = seated();
    assert_eq!(conn.seat(), Some(("CODE12".to_string(), 1)));
    match conn.on_message(ClientMsg::Play { cards: vec!["4:clubs".to_string()] }) {
        Action::Move { code, player_id, cards } => {
            assert_eq!(code, "CODE12");
            assert_eq!(player_id, 1);
            assert_eq!(cards, Some(vec!["4:clubs".to_string()]));
        }
        other => panic!("unexpected {:?}", other),
    }
    assert!(matches!(
        conn.on_message(ClientMsg::Pass),
        Action::Move { player_id: 1, cards: None, .. }
    ));
    assert!(matches!(
        conn.on_message(ClientMsg::Ready { ready: false }),
        Action::Ready { player_id: 1, ready: false, .. }
    ));
    assert!(matches!(
        conn.on_message(ClientMsg::SetRoomSettings { play_limit_secs: None, winning_point: Some(7) }),
        Action::Settings { player_id: 1, play_limit_secs: None, winning_point: Some(7), .. }
    ));
    assert!(matches!(conn.on_message(ClientMsg::StartGame), Action::Start { player_id: 1, .. }));
}

#[test]
fn a_connection_follows_its_player() {
    let mut conn = seated();
    conn.follow(Some(0));
    assert_eq!(conn.seat(), Some(("CODE12".to_string(), 0)));
    conn.follow(None);
    assert_eq!(conn.seat(), Some(("CODE12".to_string(), 0)));
    let mut fresh = Connection::new();
    fresh.follow(Some(3));
    assert_eq!(fresh.seat(), None);
}

#[test]
fn a_newcomer_sees_their_own_hand_only() {
    let mut conn = Connection::new();
    let entrance = conn.on_joined("code12", Ok(joined(1)));
    let ServerMsg::Joined { state, .. } = &entrance.reply.msg else {
        panic!("Expected Joined");
    };
    assert!(state.players[0].hand.is_empty());
    assert_eq!(state.players[1].hand.len(), 1);
    assert_eq!(entrance.reply.hand_counts, vec![1, 1]);
}

#[test]
fn a_refusal_changes_nothing() {
    let mut conn = seated();
    let refused = conn.on_joined("OTHER1", Err("Room is full".to_string()));
    assert_eq!(refused.reply.msg, ServerMsg::Error { message: "Room is full".to_string() });
    assert!(refused.session.is_none());
    assert_eq!(conn.seat(), Some(("CODE12".to_string(), 1)));
    let refused = conn.on_rejoined("OTHER1", Err("gone".to_string()));
    assert_eq!(refused.reply.msg, ServerMsg::Error { message: "gone".to_string() });
    assert_eq!(
        conn.on_garbled(),
        ServerMsg::Error { message: "Invalid message format".to_string() }
    );
}

#[test]
fn a_seat_is_given_up_once() {
    let mut closed = seated();
    assert_eq!(closed.on_closed(), Some(("CODE12".to_string(), 1)));
    let end = closed.on_end();
    assert_eq!(end.leave, None);
    assert_eq!(end.forget, Some("CODE12".to_string()));

    let mut left = seated();
    assert!(matches!(left.on_message(ClientMsg::LeaveRoom), Action::Remove { player_id: 1, .. }));
    assert_eq!(left.on_end().leave, None);

    let broken = seated();
    assert_eq!(broken.on_end().leave, Some(("CODE12".to_string(), 1)));
    assert_eq!(Connection::new().on_end().forget, None);
}

#[test]
fn looking_a_room_up_touches_no_seat() {
    let mut conn = seated();
    let action = conn.on_message(ClientMsg::CheckRoom {
        code: "other1".to_string(),
        token: "t".to_string(),
    });
    assert!(matches!(action, Action::Check { .. }));
    assert_eq!(conn.seat(), Some(("CODE12".to_string(), 1)));
    assert_eq!(
        Connection::checked("other1", true, false),
        ServerMsg::RoomStatus { code: "OTHER1".to_string(), found: true, rejoinable: false }
    );
}

#[test]
fn the_creator_and_returners_take_their_seats() {
    let mut conn = Connection::new();
    let entrance = conn.on_created("CODE12".to_string(), 0, &ServerMsg::GameStarted);
    assert_eq!(entrance.session, Some(("CODE12".to_string(), 0)));
    assert_eq!(conn.registered(), Some("CODE12".to_string()));
    let ServerMsg::Joined { state, .. } = joined(1) else {
        panic!("Expected Joined");
    };
    let back = ServerMsg::Rejoined {
        player_id: 1,
        state: state.clone(),
        code: "OTHER1".to_string(),
        token: "t1".to_string(),
    };
    conn.on_rejoined("other1", Ok(back));
    assert_eq!(conn.seat(), Some(("OTHER1".to_string(), 1)));
    let shown = Connection::on_started(1, Ok(ServerMsg::State { state }));
    assert_eq!(shown.hand_counts, vec![1, 1]);
    assert_eq!(
        Connection::answered(Err("no".to_string())),
        ServerMsg::Error { message: "no".to_string() }
    );
    assert_eq!(Connection::answered(Ok(ServerMsg::Pong)), ServerMsg::Pong);
}

// Between servers

#[test]
fn a_channel_names_its_room() {
    assert_eq!(channel_code(&events_key("CODE12")), "CODE12");
    assert_eq!(events_pattern(), "room:events:*");
    assert_eq!(room_key("CODE12"), "room:CODE12");
    assert_eq!(lock_key("CODE12"), "room:lock:CODE12");
    assert_eq!(codes_key(), "room:codes");
}

#[test]
fn messages_of_others_are_passed_on() {
    let mut m = RoomManager::new("pod-a".to_string(), 6, 0, 0, 0);
    m.add_session("CODE12".to_string(), 2, 12);
    let own = PubEnvelope {
        pod: "pod-a".to_string(),
        msg: ServerMsg::SeatChanged { renumbered: vec![(2, 1)] },
    };
    assert!(m.relay("room:events:CODE12", &own).is_empty());
    assert_eq!(m.seat_of("CODE12", 12), Some(2));
    let other = PubEnvelope { pod: "pod-b".to_string(), msg: own.msg.clone() };
    let sent = m.relay("room:events:CODE12", &other);
    assert_eq!(sent.len(), 1);
    assert_eq!(sent[0].session, 12);
    assert_eq!(m.seat_of("CODE12", 12), Some(1));
    assert!(m.relay("else", &other).is_empty());
}

#[test]
fn waiting_doubles_up_to_a_limit() {
    assert_eq!(FIRST_BACKOFF_MS, 500);
    assert_eq!(next_backoff(500), 1_000);
    assert_eq!(next_backoff(7_500), 15_000);
    assert_eq!(next_backoff(7_501), 15_000);
    assert_eq!(next_backoff(15_000), 15_000);
    assert_eq!(wait_now(8_000, false), 8_000);
    assert_eq!(wait_now(8_000, true), 500);
}

#[test]
fn kinds_of_store() {
    assert_eq!(store_kind("", None), StoreKind::Memory);
    assert_eq!(store_kind(" Memory ", None), StoreKind::Memory);
    assert_eq!(store_kind("REDIS", Some("redis://x")), StoreKind::Redis);
    assert_eq!(store_kind("redis", Some("  ")), StoreKind::RedisWithoutUrl);
    assert_eq!(store_kind("redis", None), StoreKind::RedisWithoutUrl);
    assert_eq!(store_kind("disk", None), StoreKind::MemoryForUnknown);
    assert_eq!(room_ttl_secs(1_800_000), 1_800);
    assert_eq!(room_ttl_secs(999), 1);
}

// Settings and texts

#[test]
fn settings_come_from_variables() {
    let vars = Vars {
        server_host: Some("127.0.0.1".to_string()),
        server_port: Some(" 9000 ".to_string()),
        port: Some("1".to_string()),
        room_code_length: Some("8".to_string()),
        room_ttl_seconds: Some("+60".to_string()),
        max_players: Some("-1".to_string()),
        disconnect_timeout_sec: Some(" 5".to_string()),
        bot_turn_delay_ms: Some("18446744073709551616".to_string()),
        room_orphan_timeout_secs: Some("0".to_string()),
    };
    let config = Config::new(&vars);
    assert_eq!(config.host, "127.0.0.1");
    assert_eq!(config.port, 9000);
    assert_eq!(config.room_code_length, 8);
    assert_eq!(config.room_ttl_seconds, 60);
    assert_eq!(config.max_players, 4);
    assert_eq!(config.disconnect_timeout_sec, 15);
    assert_eq!(config.bot_turn_delay_ms, 2500);
    assert_eq!(config.room_orphan_timeout_secs, 0);
    assert_eq!(resolve_port(Some("65536"), Some("65535")), 65535);
}

#[test]
fn numbers_and_lists_as_text() {
    assert_eq!(decimal_text(0), "0");
    assert_eq!(decimal_text(1_203), "1203");
    assert_eq!(signed_text(-15), "-15");
    assert_eq!(signed_text(i32::MIN), "-2147483648");
    assert_eq!(join_texts(&vec!["a".to_string(), "b".to_string()], ", "), "a, b");
    assert_eq!(join_texts(&Vec::new(), ", "), "");
    let digits: Vec<char> = "0042".chars().collect();
    assert_eq!(parse_number(&digits, 100), Some(42));
    assert_eq!(parse_number(&digits, 41), None);
    assert_eq!(parse_number(&vec!['+'], 41), None);
}
