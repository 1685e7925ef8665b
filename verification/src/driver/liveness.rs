//! A game that is on goes on: whatever happens in a room, something is set to
//! happen next.
use crate::driver;
use crate::game::bot;
use crate::game::card::Card;
use crate::game::combo::ComboType;
use crate::game::engine;
use crate::game::room::RoomModel;
use crate::game::rules;
use crate::game::state::GameModel;
use crate::game::state::GamePhase;
use crate::game::state::PendingAction;
use crate::game::turn;
use crate::text;
use vstd::prelude::*;

verus! {

impl GameModel {
    /// Four players, and those who have finished are exactly those whose places
    /// are settled, each once.
    pub open spec fn placed(self) -> bool {
        &&& self.players.len() == 4
        &&& self.finished_order.no_duplicates()
        &&& forall|k: int|
            0 <= k < self.finished_order.len() ==> #[trigger] self.finished_order[k] < 4
        &&& forall|i: int|
            0 <= i < 4 ==> ((#[trigger] self.players[i]).finished <==> self.finished_order.contains(
                i as usize,
            ))
    }

    /// A round that is not over: places and finished players agree, fewer than
    /// three have finished, and while it is played somebody with cards is at
    /// turn.
    pub open spec fn lively(self) -> bool {
        self.phase != GamePhase::GameOver ==> {
            &&& self.placed()
            &&& self.finished_order.len() < 3
            &&& self.phase == GamePhase::Playing ==> (self.current_player as int) < 4
                && !self.players[self.current_player as int].finished
            &&& self.phase != GamePhase::Playing ==> self.finished_order.len() == 0
        }
    }
}

impl RoomModel {
    /// Something is set to happen in a game that is on: a bot's turn, or the
    /// time of the human at turn is running.
    pub open spec fn attended(self) -> bool {
        self.state.phase == GamePhase::Playing ==> {
            ||| self.driver.pending is Some
            ||| !self.state.bot_at_turn() && self.driver.watchdog_deadline_ms is Some
                && self.driver.watchdog_turn_seq == Some(self.state.turn_seq)
        }
    }
}

/// As long as fewer than four places are settled, somebody still has cards.
proof fn lemma_somebody_active(game: GameModel)
    requires
        game.placed(),
        game.finished_order.len() < 4,
    ensures
        exists|i: int| 0 <= i < 4 && !(#[trigger] game.players[i]).finished,
{
    let order = game.finished_order;
    if forall|i: int| 0 <= i < 4 ==> (#[trigger] game.players[i]).finished {
        assert(game.players[0].finished && game.players[1].finished && game.players[2].finished
            && game.players[3].finished);
        let a = choose|k: int| 0 <= k < order.len() && order[k] == 0usize;
        let b = choose|k: int| 0 <= k < order.len() && order[k] == 1usize;
        let c = choose|k: int| 0 <= k < order.len() && order[k] == 2usize;
        let d = choose|k: int| 0 <= k < order.len() && order[k] == 3usize;
        assert(order.contains(0usize) && order.contains(1usize) && order.contains(2usize)
            && order.contains(3usize));
        assert(order[a] == 0 && order[b] == 1 && order[c] == 2 && order[d] == 3);
        assert(false);
    }
}

proof fn lemma_skipped_lively(game: GameModel)
    requires
        game.seated(),
        game.phase == GamePhase::Playing,
        game.placed(),
        game.finished_order.len() < 3,
    ensures
        game.skipped().lively(),
{
    lemma_somebody_active(game);
    rules::law_skip_finds_active(game);
}

/// Putting cards down keeps places and finished players in agreement.
proof fn lemma_cards_down_placed(
    game: GameModel,
    seat: usize,
    places: Seq<usize>,
    kind: ComboType,
)
    requires
        game.placed(),
        seat < 4,
    ensures
        game.cards_down(seat, places, kind).placed(),
{
    let next = game.cards_down(seat, places, kind);
    if game.empties(seat, places) {
        assert(!game.finished_order.contains(seat)) by {
            assert(game.players[seat as int].finished <==> game.finished_order.contains(
                seat as int as usize,
            ));
        }
        assert forall|i: int| 0 <= i < 4 implies ((#[trigger] next.players[i]).finished
            <==> next.finished_order.contains(i as usize)) by {
            assert(game.players[i].finished <==> game.finished_order.contains(i as usize));
            if game.finished_order.contains(i as usize) {
                let k = choose|k: int|
                    0 <= k < game.finished_order.len() && game.finished_order[k] == i as usize;
                assert(next.finished_order[k] == i as usize);
            }
            if i == seat {
                assert(next.finished_order[game.finished_order.len() as int] == i as usize);
            }
            if next.finished_order.contains(i as usize) && i != seat {
                let k = choose|k: int|
                    0 <= k < next.finished_order.len() && next.finished_order[k] == i as usize;
                assert(game.finished_order[k] == i as usize);
            }
        }
    } else {
        assert forall|i: int| 0 <= i < 4 implies ((#[trigger] next.players[i]).finished
            <==> next.finished_order.contains(i as usize)) by {
            assert(game.players[i].finished <==> game.finished_order.contains(i as usize));
        }
    }
}

/// Settling a move leaves a lively game lively: with `skip` it is so at once,
/// without it after skipping.
proof fn lemma_settled_lively(game: GameModel, skip: bool)
    requires
        game.sound(),
        game.placed(),
        game.phase == GamePhase::Playing,
    ensures
        ({
            let next = game.settled(skip);
            if skip || next.phase != GamePhase::Playing {
                next.lively()
            } else {
                next.skipped().lively()
            }
        }),
        game.settled(skip).phase == GamePhase::Playing || game.settled(skip).phase
            == GamePhase::GameOver,
        game.settled(skip).phase == GamePhase::Playing ==> game.settled(skip).placed()
            && game.settled(skip).finished_order.len() < 3,
{
    turn::lemma_settled_sound(game, skip);
    match game.trick_winner() {
        Some(winner) => {
            assert(game.trick.combo_player == Some(winner));
            let led = game.led_by(winner);
            assert(led.placed());
            if game.finished_order.len() < 3 {
                lemma_skipped_lively(led);
            }
        },
        None => {
            let on = game.moved_on();
            assert(on.placed());
            if game.finished_order.len() < 3 {
                lemma_skipped_lively(on);
            }
        },
    }
}

/// Whatever the player at turn tries, the game stays lively.
pub proof fn law_moves_keep_game_lively(game: GameModel, seat: usize, ids: Seq<Seq<char>>)
    requires
        game.sound(),
        game.lively(),
        game.phase == GamePhase::Playing,
    ensures
        game.played(seat, ids).lively(),
        game.after_pass(seat).lively(),
{
    if game.accepts_move(seat) {
        if let Some(places) = engine::places_of(game.players[seat as int].hand, ids) {
            let kind = game.kind_at(seat, places);
            turn::lemma_cards_down_sound(game, seat, places, kind);
            lemma_cards_down_placed(game, seat, places, kind);
            let noted = game.play_noted(seat, places);
            assert(noted.placed()) by {
                let down = game.cards_down(seat, places, kind);
                assert(noted.players == down.players);
                assert(noted.finished_order == down.finished_order);
                assert forall|i: int| 0 <= i < 4 implies ((#[trigger] noted.players[i]).finished
                    <==> noted.finished_order.contains(i as usize)) by {
                    assert(down.players[i].finished <==> down.finished_order.contains(i as usize));
                }
            }
            lemma_settled_lively(noted, true);
        }
        let passed = game.pass_noted(seat);
        assert(passed.placed()) by {
            assert forall|i: int| 0 <= i < 4 implies ((#[trigger] passed.players[i]).finished
                <==> passed.finished_order.contains(i as usize)) by {
                assert(game.players[i].finished <==> game.finished_order.contains(i as usize));
            }
        }
        lemma_settled_lively(passed, true);
    }
}

proof fn lemma_one_bot_turn_lively(game: GameModel)
    requires
        game.sound(),
        game.lively(),
        game.phase == GamePhase::Playing,
        game.turn_seq < u32::MAX,
    ensures
        game.one_bot_turn().lively(),
{
    let seat = game.current_player;
    if game.bot_is_up() {
        match bot::bot_choice(game, seat) {
            Some(places) => {
                let kind = game.kind_at(seat, places);
                turn::lemma_cards_down_sound(game, seat, places, kind);
                lemma_cards_down_placed(game, seat, places, kind);
                let down = game.cards_down(seat, places, kind);
                let bumped = down.bumped();
                assert(bumped.placed()) by {
                    assert forall|i: int| 0 <= i < 4 implies ((
                    #[trigger] bumped.players[i]).finished <==> bumped.finished_order.contains(
                        i as usize,
                    )) by {
                        assert(down.players[i].finished <==> down.finished_order.contains(
                            i as usize,
                        ));
                    }
                }
                lemma_settled_lively(bumped, false);
            },
            None => {
                let bumped = game.passed_by(seat).bumped();
                assert(bumped.placed()) by {
                    assert forall|i: int| 0 <= i < 4 implies ((
                    #[trigger] bumped.players[i]).finished <==> bumped.finished_order.contains(
                        i as usize,
                    )) by {
                        assert(game.players[i].finished <==> game.finished_order.contains(
                            i as usize,
                        ));
                    }
                }
                lemma_settled_lively(bumped, false);
            },
        }
    }
}

proof fn lemma_logged_lively(game: GameModel, line: Seq<char>)
    requires
        game.lively(),
    ensures
        game.logged(line).lively(),
{
    if game.phase != GamePhase::GameOver {
        assert forall|i: int| 0 <= i < 4 implies ((#[trigger] game.logged(
            line,
        ).players[i]).finished <==> game.logged(line).finished_order.contains(i as usize)) by {
            assert(game.players[i].finished <==> game.finished_order.contains(i as usize));
        }
    }
}

/// With what comes next set, a lively game is attended.
proof fn lemma_armed_attended(room: RoomModel, delay_ms: u64, now: u64)
    requires
        room.state.lively(),
    ensures
        room.armed_after_playing(delay_ms, now).attended(),
        room.state.phase == GamePhase::Playing ==> room.turn_armed(delay_ms, now).attended(),
{
}

/// After a human's move that counts, the game stays lively and attended.
pub proof fn law_human_move_attends(
    room: RoomModel,
    player_id: usize,
    cards: Option<Seq<Seq<char>>>,
    delay_ms: u64,
    now: u64,
)
    requires
        room.state.sound(),
        room.state.lively(),
        room.state.phase == GamePhase::Playing,
        room.move_counts(player_id, cards),
    ensures
        room.human_moved(player_id, cards, delay_ms, now).state.lively(),
        room.human_moved(player_id, cards, delay_ms, now).attended(),
{
    match cards {
        Some(ids) => law_moves_keep_game_lively(room.state, player_id, ids),
        None => law_moves_keep_game_lively(room.state, player_id, Seq::empty()),
    }
    let next = RoomModel { state: room.move_tried(player_id, cards), ..room };
    lemma_armed_attended(next, delay_ms, now);
}

/// After a pending action has been done, the game is lively and attended.
pub proof fn law_action_attends(
    room: RoomModel,
    action: PendingAction,
    delay_ms: u64,
    now: u64,
)
    requires
        room.drivable(1),
        room.state.lively(),
    ensures
        room.fired(action, delay_ms, now).state.lively(),
        room.fired(action, delay_ms, now).attended(),
{
    reveal(RoomModel::fired);
    let game = room.state;
    match action {
        PendingAction::EnterPlaying => {
            if game.phase == GamePhase::Playing {
                let lead = game.players[game.current_player as int].name;
                lemma_logged_lively(game, driver::lead_text(game.round, lead));
                lemma_armed_attended(
                    RoomModel { state: game.logged(driver::lead_text(game.round, lead)), ..room },
                    delay_ms,
                    now,
                );
            }
        },
        PendingAction::StepThreeDiscard => {
            if let Some(td) = game.three_discard {
                driver::lemma_next_to_discard(td, 0);
                if let Some(seat) = game.discard_seat() {
                    lemma_discard_lively(game, seat);
                }
            }
        },
        PendingAction::BotTurn => {
            if game.phase == GamePhase::Playing {
                lemma_one_bot_turn_lively(game);
                driver::lemma_one_bot_turn_sound(game);
                let next = game.one_bot_turn();
                if next.phase == GamePhase::Playing {
                    lemma_skipped_lively(next);
                }
            }
        },
    }
}

proof fn lemma_discard_lively(game: GameModel, seat: usize)
    requires
        game.sound(),
        game.discard_sound(),
        game.lively(),
        game.three_discard matches Some(td) && td.order.contains(seat),
    ensures
        game.discard_stepped(seat).lively(),
{
    let td = game.three_discard.unwrap();
    td.order.index_of_first_ensures(seat);
    assert((td.order[0] as int) < game.players.len());
    let next = game.discard_stepped(seat);
    assert forall|i: int| 0 <= i < 4 implies ((#[trigger] next.players[i]).finished
        <==> next.finished_order.contains(i as usize)) by {
        assert(game.players[i].finished <==> game.finished_order.contains(i as usize));
    }
    let at = next.current_player as int;
    if next.phase == GamePhase::Playing {
        assert(game.players[at].finished <==> game.finished_order.contains(at as usize));
    }
}

/// After a move has been made for a player whose time had run out, the game is
/// lively and attended.
pub proof fn law_watchdog_attends(room: RoomModel, delay_ms: u64, now: u64)
    requires
        room.drivable(1),
        room.state.lively(),
        room.attended(),
    ensures
        room.watchdog_fired(delay_ms, now).state.lively(),
        room.watchdog_fired(delay_ms, now).attended(),
{
    reveal(RoomModel::watchdog_fired);
    let game = room.state;
    if room.human_is_up() {
        let seat = game.current_player;
        let name = game.players[seat as int].name;
        match turn::idle_choice(game, seat) {
            Some(c) => {
                law_moves_keep_game_lively(game, seat, seq![c.id()]);
                lemma_logged_lively(
                    game.played(seat, seq![c.id()]),
                    driver::idle_line(name, Some(c.id())),
                );
            },
            None => {
                law_moves_keep_game_lively(game, seat, Seq::empty());
                lemma_logged_lively(game.after_pass(seat), driver::idle_line(name, None));
            },
        }
        lemma_armed_attended(
            RoomModel { state: game.idle_moved(), driver: room.driver.unwatched(), ..room },
            delay_ms,
            now,
        );
    }
}

/// However long a room is driven on, its game stays lively and attended: while
/// a game is on, something is always set to happen in it.
pub proof fn law_driving_never_strands(room: RoomModel, delay_ms: u64, now: u64, steps: nat)
    requires
        room.drivable(steps as int),
        room.state.lively(),
        room.attended(),
    ensures
        room.driven(delay_ms, now, steps).state.lively(),
        room.driven(delay_ms, now, steps).attended(),
    decreases steps,
{
    if steps > 0 {
        if room.driver.due(now) {
            let action = room.driver.pending.unwrap();
            law_action_attends(room, action, delay_ms, now);
            driver::lemma_fired_drivable(room, action, delay_ms, now, steps as int);
            law_driving_never_strands(
                room.fired(action, delay_ms, now),
                delay_ms,
                now,
                (steps - 1) as nat,
            );
        } else if room.driver.watchdog_fires(room.state, now) {
            law_watchdog_attends(room, delay_ms, now);
            driver::lemma_watchdog_drivable(room, delay_ms, now, steps as int);
            law_driving_never_strands(
                room.watchdog_fired(delay_ms, now),
                delay_ms,
                now,
                (steps - 1) as nat,
            );
        }
    }
}

/// A room that has been driven on can be driven on further, as long as its turn
/// counter lasts.
pub proof fn law_driving_keeps_drivable(
    room: RoomModel,
    delay_ms: u64,
    now: u64,
    steps: nat,
    more: nat,
)
    requires
        room.drivable((steps + more) as int),
    ensures
        room.driven(delay_ms, now, steps).drivable(more as int),
    decreases steps,
{
    if steps > 0 {
        if room.driver.due(now) {
            let action = room.driver.pending.unwrap();
            driver::lemma_fired_drivable(room, action, delay_ms, now, (steps + more) as int);
            law_driving_keeps_drivable(
                room.fired(action, delay_ms, now),
                delay_ms,
                now,
                (steps - 1) as nat,
                more,
            );
        } else if room.driver.watchdog_fires(room.state, now) {
            driver::lemma_watchdog_drivable(room, delay_ms, now, (steps + more) as int);
            law_driving_keeps_drivable(
                room.watchdog_fired(delay_ms, now),
                delay_ms,
                now,
                (steps - 1) as nat,
                more,
            );
        }
    }
}

/// A room in which a human has moved while no threes are being discarded can
/// still be driven on.
pub proof fn law_human_move_keeps_drivable(
    room: RoomModel,
    player_id: usize,
    cards: Option<Seq<Seq<char>>>,
    delay_ms: u64,
    now: u64,
    more: nat,
)
    requires
        room.state.movable(),
        room.state.three_discard is None,
        room.drivable((1 + more) as int),
    ensures
        room.human_moved(player_id, cards, delay_ms, now).drivable(more as int),
{
    if room.state.untouched() {
        law_untouched_table_stays(room, player_id, cards, delay_ms, now);
    } else {
        let ids = match cards {
            Some(ids) => ids,
            None => Seq::empty(),
        };
        engine::law_moves_keep_game_sound(room.state, player_id, ids);
        driver::lemma_move_fields(room.state, player_id, ids);
    }
}

/// A round that has been started goes on by itself: somebody with cards will be
/// at turn, and what comes next is set.
pub proof fn law_start_attends(room: RoomModel, deck: Seq<Card>, now_ms: u64)
    requires
        rules::is_shuffled_deck(deck),
        room.state.phase == GamePhase::Lobby ==> {
            &&& room.aligned()
            &&& room.players.len() <= 4
            &&& room.state.finished_order.len() == 0
            &&& forall|i: int|
                0 <= i < room.state.players.len() ==> !(#[trigger] room.state.players[i]).finished
        },
        room.state.phase != GamePhase::Lobby ==> {
            &&& room.state.phase == GamePhase::GameOver
            &&& room.state.players.len() == 4
            &&& room.state.finished_order.len() > 0 ==> room.state.finished_order[0] < 4
        },
    ensures
        room.round_started(deck, now_ms).state.lively(),
        room.round_started(deck, now_ms).attended(),
{
    let next = room.round_started(deck, now_ms).state;
    if room.state.phase == GamePhase::Lobby {
        lemma_filled_lively(room);
    }
    assert forall|i: int| 0 <= i < 4 implies !(#[trigger] next.players[i]).finished by {
        if room.state.phase == GamePhase::Lobby {
            assert(!room.filled().state.players[i].finished);
        }
    }
    assert(next.finished_order =~= Seq::empty());
}

proof fn lemma_filled_lively(room: RoomModel)
    requires
        room.aligned(),
        room.players.len() <= 4,
        room.state.finished_order.len() == 0,
        forall|i: int|
            0 <= i < room.state.players.len() ==> !(#[trigger] room.state.players[i]).finished,
    ensures
        room.filled().state.players.len() == 4,
        room.filled().state.finished_order.len() == 0,
        forall|i: int| 0 <= i < 4 ==> !(#[trigger] room.filled().state.players[i]).finished,
    decreases 4 - room.players.len(),
{
    if room.players.len() < 4 {
        lemma_filled_lively(
            room.seated_last("Bot "@ + text::decimal(room.players.len() + 1), None),
        );
    }
}

/// A round that has been started can be driven on.
pub proof fn law_started_round_drivable(room: RoomModel, deck: Seq<Card>, now_ms: u64)
    requires
        rules::is_shuffled_deck(deck),
        room.state.headroom(),
        room.state.turn_seq + 9 <= u32::MAX,
        room.state.phase == GamePhase::Lobby ==> room.aligned() && room.state.untouched(),
        room.state.phase != GamePhase::Lobby ==> {
            &&& room.state.phase == GamePhase::GameOver
            &&& room.state.players.len() >= 4
            &&& room.state.finished_order.len() > 0 ==> (room.state.finished_order[0] as int)
                < room.state.players.len()
        },
    ensures
        room.round_started(deck, now_ms).drivable(8),
{
    let next = room.round_started(deck, now_ms).state;
    if room.state.phase == GamePhase::Lobby {
        lemma_filled_drivable(room);
        rules::law_discard_order(room.filled().state.dealt(deck).players);
    } else {
        rules::lemma_rescored_headroom(room.state, next);
    }
}

proof fn lemma_filled_drivable(room: RoomModel)
    requires
        room.aligned(),
        room.state.headroom(),
        room.state.trick.combo_player is None,
    ensures
        room.filled().aligned(),
        room.filled().state.players.len() >= 4,
        room.filled().state.headroom(),
        room.filled().state.trick.combo_player is None,
        room.filled().state.turn_seq == room.state.turn_seq,
    decreases 4 - room.players.len(),
{
    if room.players.len() < 4 {
        let next = room.seated_last("Bot "@ + text::decimal(room.players.len() + 1), None);
        rules::lemma_rescored_headroom(room.state, next.state);
        lemma_filled_drivable(next);
    }
}

/// At a table at which nothing has been dealt, trying to move leaves no trace.
pub proof fn law_untouched_table_stays(
    room: RoomModel,
    player_id: usize,
    cards: Option<Seq<Seq<char>>>,
    delay_ms: u64,
    now: u64,
)
    requires
        room.state.untouched(),
    ensures
        room.human_moved(player_id, cards, delay_ms, now) == room,
{
    if let Some(ids) = cards {
        if room.state.accepts_move(player_id) {
            let hand = room.state.players[player_id as int].hand;
            if let Some(places) = engine::places_of(hand, ids) {
                lemma_places_in_empty_hand(hand, ids);
            }
        }
    }
}

proof fn lemma_places_in_empty_hand(hand: Seq<Card>, ids: Seq<Seq<char>>)
    requires
        hand.len() == 0,
        engine::places_of(hand, ids) is Some,
    ensures
        engine::places_of(hand, ids).unwrap().len() == 0,
{
}

} // verus!
