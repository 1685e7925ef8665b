//! The pace of a room, as its players feel it: what happens next, and when.
use crate::driver;
use crate::game::discard;
use crate::game::room::RoomModel;
use crate::game::rules;
use crate::game::state::DriverState;
use crate::game::state::GameModel;
use crate::game::state::GamePhase;
use crate::game::state::PendingAction;
use crate::game::state::ThreeDiscardModel;
use crate::game::turn;
use crate::protocol::MsgModel;
use vstd::prelude::*;

verus! {

/// Is a bot's turn set for a time, and nothing else?
pub open spec fn bot_set_for(driver: DriverState, at: int) -> bool {
    driver.pending == Some(PendingAction::BotTurn) && driver.next_action_at_ms == at
}

/// Is nothing pending but the end of a human's turn?
pub open spec fn human_set_until(driver: DriverState, turn_seq: u32, at: int) -> bool {
    &&& driver.pending is None
    &&& driver.watchdog_deadline_ms matches Some(due) && due == at
    &&& driver.watchdog_turn_seq == Some(turn_seq)
}

/// A human at turn has as many seconds as the game gives, and one where it gives
/// none; the time counts for this turn only. A bot has none to keep.
pub proof fn law_time_to_play(driver: DriverState, game: GameModel, now: u64)
    requires
        game.phase == GamePhase::Playing,
        (game.current_player as int) < game.players.len(),
        now + 1000 * game.play_limit_secs <= u64::MAX - 1000,
    ensures
        ({
            let p = game.players[game.current_player as int];
            let after = driver.watched(game, now);
            &&& p.is_bot || p.finished ==> after.watchdog_deadline_ms is None
                && after.watchdog_turn_seq is None
            &&& !p.is_bot && !p.finished && game.play_limit_secs >= 1
                ==> after.watchdog_deadline_ms == Some(
                (now + 1000 * game.play_limit_secs) as u64,
            ) && after.watchdog_turn_seq == Some(game.turn_seq)
            &&& !p.is_bot && !p.finished && game.play_limit_secs == 0
                ==> after.watchdog_deadline_ms == Some((now + 1000) as u64)
                && after.watchdog_turn_seq == Some(game.turn_seq)
            &&& after.pending == driver.pending
            &&& after.next_action_at_ms == driver.next_action_at_ms
        }),
{
}

/// While a game is played, a bot at turn moves after its delay, and a human has
/// until their time is over. When no game is played, nothing is set.
pub proof fn law_what_comes_next(room: RoomModel, delay_ms: u64, now: u64)
    requires
        (room.state.current_player as int) < room.state.players.len(),
        now + delay_ms <= u64::MAX,
        1 <= room.state.play_limit_secs,
        now + 1000 * room.state.play_limit_secs <= u64::MAX,
    ensures
        ({
            let p = room.state.players[room.state.current_player as int];
            let after = room.armed_after_playing(delay_ms, now);
            &&& after.state == room.state
            &&& after.players == room.players
            &&& room.state.phase == GamePhase::Playing && p.is_bot ==> bot_set_for(
                after.driver,
                now + delay_ms,
            )
            &&& room.state.phase == GamePhase::Playing && !p.is_bot && !p.finished
                ==> human_set_until(
                after.driver,
                room.state.turn_seq,
                now + 1000 * room.state.play_limit_secs,
            )
            &&& room.state.phase != GamePhase::Playing ==> after.driver.pending is None
                && after.driver.watchdog_deadline_ms is None && after.driver.watchdog_turn_seq
                is None
        }),
{
}

/// An action is due from its time on, and a human's time is over from its end on,
/// as long as it is their turn; nothing happens before.
pub proof fn law_nothing_happens_early(
    room: RoomModel,
    delay_ms: u64,
    now: u64,
    steps: nat,
)
    requires
        room.driver.pending is None || now < room.driver.next_action_at_ms,
        (room.driver.watchdog_deadline_ms matches Some(due) ==> now < due)
            || room.driver.watchdog_turn_seq != Some(room.state.turn_seq) || room.state.phase
            != GamePhase::Playing,
    ensures
        room.driven(delay_ms, now, steps) == room,
        room.driven_msgs(delay_ms, now, steps).len() == 0,
{
}

/// What is due happens: a pending action from its time on, and else the end of a
/// human's turn.
pub proof fn law_what_is_due_happens(room: RoomModel, delay_ms: u64, now: u64)
    ensures
        room.driver.pending is Some && room.driver.next_action_at_ms <= now ==> room.driven(
            delay_ms,
            now,
            1,
        ) == room.fired(room.driver.pending.unwrap(), delay_ms, now),
        room.driver.pending is None && room.state.phase == GamePhase::Playing
            && room.driver.watchdog_turn_seq == Some(room.state.turn_seq) && (
        room.driver.watchdog_deadline_ms matches Some(due) && due <= now) ==> room.driven(
            delay_ms,
            now,
            1,
        ) == room.watchdog_fired(delay_ms, now),
{
    reveal_with_fuel(RoomModel::driven, 2);
}

proof fn lemma_next_in_order(td: ThreeDiscardModel, place: int, from: int)
    requires
        0 <= from <= place < td.order.len(),
        !td.discarded[td.order[place] as int],
        forall|k: int| from <= k < place ==> td.discarded[#[trigger] td.order[k] as int],
    ensures
        driver::next_to_discard(td, from) == Some(td.order[place]),
    decreases place - from,
{
    if from < place {
        assert(td.discarded[td.order[from] as int]);
        lemma_next_in_order(td, place, from + 1);
    }
}

/// Threes are discarded seat by seat in their order, half a second apart; play
/// begins after the last one.
pub proof fn law_discard_seat_by_seat(room: RoomModel, place: int, delay_ms: u64, now: u64)
    requires
        room.state.phase == GamePhase::ThreeDiscard,
        room.state.players.len() >= 4,
        now + 500 <= u64::MAX,
        room.state.three_discard matches Some(td) && {
            &&& 0 <= place < td.order.len()
            &&& td.order.no_duplicates()
            &&& td.order[place] < td.discarded.len()
            &&& !td.discarded[td.order[place] as int]
            &&& forall|k: int| 0 <= k < place ==> td.discarded[#[trigger] td.order[k] as int]
        },
    ensures
        ({
            let td = room.state.three_discard.unwrap();
            let after = room.fired(PendingAction::StepThreeDiscard, delay_ms, now);
            &&& place < td.order.len() - 1 ==> {
                &&& after.state.phase == GamePhase::ThreeDiscard
                &&& after.state.current_player == td.order[place + 1]
                &&& after.state.three_discard matches Some(next)
                    && next.discarded[td.order[place] as int]
                &&& after.driver.pending == Some(PendingAction::StepThreeDiscard)
                &&& after.driver.next_action_at_ms == now + 500
            }
            &&& place == td.order.len() - 1 ==> {
                &&& after.state.phase == GamePhase::Playing
                &&& after.state.current_player == td.order[0]
                &&& after.state.three_discard is None
                &&& after.driver.pending == Some(PendingAction::EnterPlaying)
                &&& after.driver.next_action_at_ms == now
            }
            &&& after.state.log == room.state.log.push(
                driver::discard_line(
                    room.state.players[td.order[place] as int].name,
                    td.player_cards[td.order[place] as int].len(),
                ),
            )
            &&& room.fired_msgs(PendingAction::StepThreeDiscard) == seq![
                MsgModel::State { state: after.state },
            ]
        }),
{
    reveal(RoomModel::fired);
    reveal(RoomModel::fired_msgs);
    let td = room.state.three_discard.unwrap();
    lemma_next_in_order(td, place, 0);
    discard::law_discard_goes_down_the_order(room.state, place);
}

/// When play begins, a line in the log says so, and the seat at turn is on: a bot
/// after its delay, a human with their time.
pub proof fn law_play_begins(room: RoomModel, delay_ms: u64, now: u64)
    requires
        room.state.phase == GamePhase::Playing,
        (room.state.current_player as int) < room.state.players.len(),
        !room.state.players[room.state.current_player as int].finished,
        now + delay_ms <= u64::MAX,
        1 <= room.state.play_limit_secs,
        now + 1000 * room.state.play_limit_secs <= u64::MAX,
    ensures
        ({
            let p = room.state.players[room.state.current_player as int];
            let after = room.fired(PendingAction::EnterPlaying, delay_ms, now);
            &&& after.state == (GameModel { log: after.state.log, ..room.state })
            &&& after.state.log == room.state.log.push(
                driver::lead_text(room.state.round, p.name),
            )
            &&& p.is_bot ==> bot_set_for(after.driver, now + delay_ms)
            &&& !p.is_bot ==> human_set_until(
                after.driver,
                room.state.turn_seq,
                now + 1000 * room.state.play_limit_secs,
            )
            &&& room.fired_msgs(PendingAction::EnterPlaying) == seq![
                MsgModel::State { state: after.state },
            ]
        }),
{
    reveal(RoomModel::fired);
    reveal(RoomModel::fired_msgs);
}

/// A human's move that does not count leaves the room as it is. One that counts
/// sets what comes next: a bot at turn after its delay, a human with their time,
/// and nothing where the round is over.
pub proof fn law_moves_set_the_pace(
    room: RoomModel,
    id: usize,
    cards: Option<Seq<Seq<char>>>,
    delay_ms: u64,
    now: u64,
)
    requires
        now + delay_ms <= u64::MAX,
        1 <= room.move_tried(id, cards).play_limit_secs,
        now + 1000 * room.move_tried(id, cards).play_limit_secs <= u64::MAX,
    ensures
        ({
            let next = room.move_tried(id, cards);
            let seat = next.current_player as int;
            let after = room.human_moved(id, cards, delay_ms, now);
            &&& next.turn_seq == room.state.turn_seq && next.phase == room.state.phase ==> after
                == room
            &&& next.turn_seq != room.state.turn_seq || next.phase != room.state.phase ==> {
                &&& after.state == next
                &&& after.players == room.players
                &&& next.phase != GamePhase::Playing ==> after.driver.pending is None
                &&& next.phase == GamePhase::Playing && seat < next.players.len()
                    && next.players[seat].is_bot ==> bot_set_for(after.driver, now + delay_ms)
                &&& next.phase == GamePhase::Playing && seat < next.players.len()
                    && !next.players[seat].is_bot && !next.players[seat].finished
                    ==> human_set_until(
                    after.driver,
                    next.turn_seq,
                    now + 1000 * next.play_limit_secs,
                )
            }
        }),
{
}

/// A human plays the cards they name, or passes where they name none.
pub proof fn law_moves_are_tried(room: RoomModel, id: usize, ids: Seq<Seq<char>>)
    ensures
        room.move_tried(id, None) == room.state.after_pass(id),
        room.state.ids_playable(id, ids) ==> room.move_tried(id, Some(ids)) == room.state.played(
            id,
            ids,
        ),
        !room.state.ids_playable(id, ids) ==> room.move_tried(id, Some(ids)) == room.state,
{
}

/// After a bot's turn the next bot is set after the delay; a human behind it who
/// has not finished gets their time.
pub proof fn law_bots_move_one_by_one(room: RoomModel, delay_ms: u64, now: u64)
    requires
        room.state.sound(),
        room.state.players.len() == 4,
        room.state.bot_is_up(),
        room.state.turn_seq < u32::MAX,
        now + delay_ms <= u64::MAX,
    ensures
        ({
            let after = room.fired(PendingAction::BotTurn, delay_ms, now);
            let seat = after.state.current_player as int;
            &&& after.state.phase == GamePhase::Playing && after.state.finished_order.len() < 3
                && after.state.players[seat].is_bot && !after.state.players[seat].finished
                ==> after.driver.pending == Some(PendingAction::BotTurn)
                && after.driver.next_action_at_ms == now + delay_ms
            &&& after.state.phase != GamePhase::Playing ==> after.driver.pending is None
                && after.driver.watchdog_deadline_ms is None
            &&& after.state.phase == GamePhase::Playing && !after.state.players[seat].is_bot
                ==> after.driver.pending is None
        }),
{
    reveal(RoomModel::fired);
    turn::lemma_bot_turn_sound(room.state);
    let turned = room.state.bot_turn();
    if exists|i: int| 0 <= i < 4 && !(#[trigger] turned.players[i]).finished {
        rules::law_skip_idempotent(turned);
    } else {
        reveal_with_fuel(GameModel::active_from, 5);
        let after = room.fired(PendingAction::BotTurn, delay_ms, now);
        assert(turned.players[0].finished && turned.players[1].finished
            && turned.players[2].finished && turned.players[3].finished);
    }
}

/// A bot's turn is taken, with the turn moved on to a player who has not
/// finished, and everybody is told how the table stands then.
pub proof fn law_bot_turns_are_told(room: RoomModel, delay_ms: u64, now: u64)
    requires
        room.state.phase == GamePhase::Playing,
    ensures
        ({
            let after = room.fired(PendingAction::BotTurn, delay_ms, now);
            let next = room.state.one_bot_turn();
            &&& after.state == next || after.state == next.skipped()
            &&& after.players == room.players
            &&& room.fired_msgs(PendingAction::BotTurn).len() > 0
            &&& room.fired_msgs(PendingAction::BotTurn).last() == (MsgModel::State {
                state: after.state,
            })
        }),
{
    reveal(RoomModel::fired);
    reveal(RoomModel::fired_msgs);
    lemma_skipped_in_place(room.state.one_bot_turn());
}

proof fn lemma_skipped_in_place(game: GameModel)
    ensures
        game.skipped().current_player == game.current_player ==> game.skipped() == game,
{
}

/// For a human whose time is over, what may be played is played, or they pass;
/// then the next one is on, as after any move.
pub proof fn law_time_over(room: RoomModel, delay_ms: u64, now: u64)
    requires
        room.state.phase == GamePhase::Playing,
        (room.state.current_player as int) < room.state.players.len(),
        !room.state.players[room.state.current_player as int].is_bot,
        !room.state.players[room.state.current_player as int].finished,
        now + delay_ms <= u64::MAX,
        1 <= room.watchdog_fired(delay_ms, now).state.play_limit_secs,
        now + 1000 * room.watchdog_fired(delay_ms, now).state.play_limit_secs <= u64::MAX,
    ensures
        ({
            let seat = room.state.current_player;
            let after = room.watchdog_fired(delay_ms, now);
            let moved = match turn::idle_choice(room.state, seat) {
                Some(c) => room.state.played(seat, seq![c.id()]),
                None => room.state.after_pass(seat),
            };
            let next = moved.current_player as int;
            &&& after.state == (GameModel { log: after.state.log, ..moved })
            &&& after.state.log == moved.log.push(
                driver::idle_line(
                    room.state.players[seat as int].name,
                    match turn::idle_choice(room.state, seat) {
                        Some(c) => Some(c.id()),
                        None => None,
                    },
                ),
            )
            &&& after.players == room.players
            &&& room.watchdog_msgs() == seq![MsgModel::State { state: after.state }]
            &&& moved.phase == GamePhase::Playing && next < moved.players.len()
                && moved.players[next].is_bot ==> bot_set_for(after.driver, now + delay_ms)
            &&& moved.phase == GamePhase::Playing && next < moved.players.len()
                && !moved.players[next].is_bot && !moved.players[next].finished
                ==> human_set_until(
                after.driver,
                moved.turn_seq,
                now + 1000 * moved.play_limit_secs,
            )
            &&& moved.phase != GamePhase::Playing ==> after.driver.pending is None
                && after.driver.watchdog_deadline_ms is None
        }),
{
    reveal(RoomModel::watchdog_fired);
    reveal(RoomModel::watchdog_msgs);
}

/// Where no human is at turn, the end of a turn does nothing but take the limit
/// away.
pub proof fn law_no_time_to_run_out(room: RoomModel, delay_ms: u64, now: u64)
    requires
        room.state.phase != GamePhase::Playing || (room.state.current_player as int)
            >= room.state.players.len()
            || room.state.players[room.state.current_player as int].is_bot
            || room.state.players[room.state.current_player as int].finished,
    ensures
        ({
            let after = room.watchdog_fired(delay_ms, now);
            &&& after.state == room.state
            &&& after.players == room.players
            &&& after.driver.pending == room.driver.pending
            &&& after.driver.watchdog_deadline_ms is None
            &&& after.driver.watchdog_turn_seq is None
            &&& room.watchdog_msgs().len() == 0
        }),
{
    reveal(RoomModel::watchdog_fired);
    reveal(RoomModel::watchdog_msgs);
}

/// Actions of a game that is not played any more come to nothing; a discard that
/// is over lets play begin at once.
pub proof fn law_actions_out_of_place(room: RoomModel, delay_ms: u64, now: u64)
    ensures
        room.state.phase != GamePhase::Playing ==> {
            &&& room.fired(PendingAction::EnterPlaying, delay_ms, now).state == room.state
            &&& room.fired(PendingAction::EnterPlaying, delay_ms, now).driver.pending is None
            &&& room.fired_msgs(PendingAction::EnterPlaying).len() == 0
            &&& room.fired(PendingAction::BotTurn, delay_ms, now).state == room.state
            &&& room.fired(PendingAction::BotTurn, delay_ms, now).driver.pending is None
            &&& room.fired_msgs(PendingAction::BotTurn).len() == 0
        },
        room.state.three_discard is None ==> {
            let after = room.fired(PendingAction::StepThreeDiscard, delay_ms, now);
            &&& after.state == room.state
            &&& after.driver.pending == Some(PendingAction::EnterPlaying)
            &&& after.driver.next_action_at_ms == now
            &&& room.fired_msgs(PendingAction::StepThreeDiscard).len() == 0
        },
{
    reveal(RoomModel::fired);
    reveal(RoomModel::fired_msgs);
}

/// Is something due in the room: a pending action whose time has come, or else
/// the end of the turn of the human who is at turn?
pub open spec fn something_due(room: RoomModel, now: u64) -> bool {
    ||| room.driver.pending is Some && room.driver.next_action_at_ms <= now
    ||| {
        &&& room.state.phase == GamePhase::Playing
        &&& room.driver.watchdog_turn_seq == Some(room.state.turn_seq)
        &&& room.driver.watchdog_deadline_ms matches Some(due) && due <= now
    }
}

/// Does the room come from the other one by what is due there?
pub open spec fn comes_by_due(next: RoomModel, room: RoomModel, delay_ms: u64, now: u64) -> bool {
    if room.driver.pending is Some && room.driver.next_action_at_ms <= now {
        next == room.fired(room.driver.pending.unwrap(), delay_ms, now)
    } else {
        something_due(room, now) && next == room.watchdog_fired(delay_ms, now)
    }
}

/// Driving a room does what is due in it, and what comes due by that, until
/// nothing is due or eight things have been done.
pub proof fn law_driving_catches_up(course: Seq<RoomModel>, delay_ms: u64, now: u64)
    requires
        1 <= course.len() <= 9,
        forall|i: int, j: int|
            0 <= i && j == i + 1 && j < course.len() ==> comes_by_due(
                #[trigger] course[j],
                #[trigger] course[i],
                delay_ms,
                now,
            ),
        course.len() == 9 || !something_due(course.last(), now),
    ensures
        course[0].caught_up(delay_ms, now) == course.last(),
{
    lemma_driven_along(course, delay_ms, now, 8);
}

proof fn lemma_driven_along(course: Seq<RoomModel>, delay_ms: u64, now: u64, steps: nat)
    requires
        1 <= course.len() <= steps + 1,
        forall|i: int, j: int|
            0 <= i && j == i + 1 && j < course.len() ==> comes_by_due(
                #[trigger] course[j],
                #[trigger] course[i],
                delay_ms,
                now,
            ),
        course.len() == steps + 1 || !something_due(course.last(), now),
    ensures
        course[0].driven(delay_ms, now, steps) == course.last(),
    decreases course.len(),
{
    if course.len() > 1 {
        let rest = course.drop_first();
        assert(comes_by_due(course[1], course[0], delay_ms, now));
        assert forall|i: int, j: int| 0 <= i && j == i + 1 && j < rest.len() implies comes_by_due(
            #[trigger] rest[j],
            #[trigger] rest[i],
            delay_ms,
            now,
        ) by {
            assert(rest[j] == course[j + 1] && rest[i] == course[i + 1]);
        }
        lemma_driven_along(rest, delay_ms, now, (steps - 1) as nat);
        assert(rest[0] == course[1]);
        assert(rest.last() == course.last());
    } else {
        assert(course.last() == course[0]);
    }
}

} // verus!
