//! Settings, readiness and the start of a round.
use crate::game::card::Card;
use crate::game::room;
use crate::game::room::Room;
use crate::game::room::RoomModel;
use crate::game::rules;
use crate::game::state;
use crate::game::state::GameModel;
use crate::game::state::GamePhase;
use crate::game::state::PendingAction;
use crate::protocol::MsgModel;
use crate::protocol::ServerMsg;
use crate::rooms;
use crate::rooms::RoomManager;
use crate::store::MutateOut;
use crate::store::OutModel;
use vstd::prelude::*;
use vstd::string::*;

verus! {

impl RoomModel {
    /// Does the player with this id wear the crown?
    pub open spec fn is_host(self, player_id: usize) -> bool {
        exists|i: int|
            0 <= i < self.players.len() && (#[trigger] self.players[i]).id == player_id
                && self.players[i].is_creator
    }

    /// Why the settings cannot be changed like this, if so.
    pub open spec fn settings_refusal(
        self,
        player_id: usize,
        play_limit_secs: Option<u32>,
        winning_point: Option<u32>,
    ) -> Option<Seq<char>> {
        if !self.is_host(player_id) {
            Some("Only the host can change room settings"@)
        } else if self.started || (self.state.phase != GamePhase::Lobby && self.state.phase
            != GamePhase::GameOver) {
            Some("Room settings are locked after the game has started"@)
        } else if play_limit_secs is None && winning_point is None {
            Some("Nothing to update"@)
        } else if play_limit_secs matches Some(v) && !(1 <= v <= 120) {
            Some("Play limit must be 1-120 seconds"@)
        } else if winning_point matches Some(v) && !(1 <= v <= 9999) {
            Some("Winning point must be 1-9999"@)
        } else {
            None
        }
    }

    /// With other settings.
    pub open spec fn with_settings(
        self,
        play_limit_secs: Option<u32>,
        winning_point: Option<u32>,
    ) -> RoomModel {
        RoomModel {
            state: GameModel {
                play_limit_secs: match play_limit_secs {
                    Some(v) => v,
                    None => self.state.play_limit_secs,
                },
                winning_point: match winning_point {
                    Some(v) => v,
                    None => self.state.winning_point,
                },
                ..self.state
            },
            ..self
        }
    }

    /// What everybody is told of the settings.
    pub open spec fn settings_msg(self) -> MsgModel {
        MsgModel::RoomSettings {
            play_limit_secs: self.state.play_limit_secs,
            winning_point: self.state.winning_point,
        }
    }

    /// What everybody is told of a player's readiness.
    pub open spec fn ready_msg(self, player_id: usize, ready: bool) -> MsgModel {
        MsgModel::PlayerReady {
            player_id,
            name: match room::seat_with_id(self.players, player_id, 0) {
                Some(i) => self.players[i].name,
                None => Seq::empty(),
            },
            ready,
        }
    }

    /// The answer to a player who says whether they are ready.
    pub open spec fn ready_answer(self, player_id: usize, ready: bool) -> Result<
        OutModel,
        Seq<char>,
    > {
        match self.ready_refusal(player_id) {
            Some(reason) => Err(reason),
            None => Ok(
                OutModel::nothing().told(self.ready_msg(player_id, ready)).replied(
                    self.ready_msg(player_id, ready),
                ),
            ),
        }
    }

    /// The room after somebody has tried to change the settings.
    pub open spec fn settings_tried(
        self,
        player_id: usize,
        play_limit_secs: Option<u32>,
        winning_point: Option<u32>,
    ) -> RoomModel {
        if self.settings_refusal(player_id, play_limit_secs, winning_point) is Some {
            self
        } else {
            self.with_settings(play_limit_secs, winning_point)
        }
    }

    /// The answer to somebody who has tried to change the settings.
    pub open spec fn settings_answer(
        self,
        player_id: usize,
        play_limit_secs: Option<u32>,
        winning_point: Option<u32>,
    ) -> Result<OutModel, Seq<char>> {
        match self.settings_refusal(player_id, play_limit_secs, winning_point) {
            Some(reason) => Err(reason),
            None => {
                let msg = self.with_settings(play_limit_secs, winning_point).settings_msg();
                Ok(OutModel::nothing().told(msg).replied(msg))
            },
        }
    }

    /// With everybody ready, if a round is over.
    pub open spec fn readied_for_next(self) -> RoomModel {
        if self.state.phase == GamePhase::GameOver {
            RoomModel {
                ready: room::all_true(self.ready.len()),
                state: GameModel { ready: room::all_true(self.state.ready.len()), ..self.state },
                ..self
            }
        } else {
            self
        }
    }

    /// Why the player cannot start a round, if so.
    pub open spec fn start_refusal(self, player_id: usize) -> Option<Seq<char>> {
        if !self.is_host(player_id) {
            Some("Only the room creator can start the game"@)
        } else if self.state.game_winner is Some {
            Some("Match already won — a new game is locked"@)
        } else if self.state.phase != GamePhase::Lobby && self.state.phase != GamePhase::GameOver {
            Some("Game already started"@)
        } else if !self.readied_for_next().humans_ready() {
            Some("Not all players are ready"@)
        } else {
            None
        }
    }

    /// With the driver set for the round that has just been started: its
    /// discard, or its first trick.
    pub open spec fn start_armed(self, now_ms: u64) -> RoomModel {
        RoomModel {
            driver: if self.state.phase == GamePhase::ThreeDiscard {
                self.driver.armed(PendingAction::StepThreeDiscard, 600, now_ms)
            } else {
                self.driver.armed(PendingAction::EnterPlaying, 0, now_ms)
            },
            ..self
        }
    }

    /// The room after a round has been started from a deck.
    pub open spec fn round_started(self, deck: Seq<Card>, now_ms: u64) -> RoomModel {
        self.readied_for_next().game_started(deck).start_armed(now_ms)
    }

    /// What is reported of the start.
    pub open spec fn start_report(self) -> OutModel {
        OutModel::nothing().told(MsgModel::GameStarted).told(self.state_msg()).replied(
            self.state_msg(),
        )
    }
}

/// Does the player with this id wear the crown?
fn find_host(room: &Room, player_id: usize) -> (r: bool)
    ensures
        r == room@.is_host(player_id),
{
    let mut i: usize = 0;
    while i < room.players.len()
        invariant
            i <= room.players.len(),
            forall|k: int|
                0 <= k < i ==> (#[trigger] room@.players[k]).id != player_id
                    || !room@.players[k].is_creator,
        decreases room.players.len() - i,
    {
        assert(room@.players[i as int] == room.players@[i as int]@);
        if room.players[i].id == player_id && room.players[i].is_creator {
            return true;
        }
        i += 1;
    }
    false
}

impl RoomManager {
    /// The host changes the time for a turn, the points to win, or both. Before
    /// the game has started only.
    pub fn set_room_settings(
        &self,
        room: &mut Room,
        player_id: usize,
        play_limit_secs: Option<u32>,
        winning_point: Option<u32>,
    ) -> (r: Result<MutateOut, String>)
        ensures
            final(room)@ == old(room)@.settings_tried(player_id, play_limit_secs, winning_point),
            rooms::step_result(r) == old(room)@.settings_answer(
                player_id,
                play_limit_secs,
                winning_point,
            ),
            match old(room)@.settings_refusal(player_id, play_limit_secs, winning_point) {
                Some(reason) => rooms::step_result(r) == Err::<OutModel, Seq<char>>(reason)
                    && final(room)@ == old(room)@,
                None => final(room)@ == old(room)@.with_settings(play_limit_secs, winning_point)
                    && rooms::step_result(r) == Ok::<OutModel, Seq<char>>(
                    OutModel::nothing().told(final(room)@.settings_msg()).replied(
                        final(room)@.settings_msg(),
                    ),
                ),
            },
    {
        let ghost before = room@;
        if !find_host(room, player_id) {
            return Err("Only the host can change room settings".to_owned());
        }
        if room.started || (room.state.phase != GamePhase::Lobby && room.state.phase
            != GamePhase::GameOver) {
            return Err("Room settings are locked after the game has started".to_owned());
        }
        if play_limit_secs.is_none() && winning_point.is_none() {
            return Err("Nothing to update".to_owned());
        }
        let play_limit: u32 = match play_limit_secs {
            Some(v) => {
                if !(1 <= v && v <= 120) {
                    return Err("Play limit must be 1-120 seconds".to_owned());
                }
                v
            },
            None => room.state.play_limit_secs,
        };
        let point: u32 = match winning_point {
            Some(v) => {
                if !(1 <= v && v <= 9999) {
                    return Err("Winning point must be 1-9999".to_owned());
                }
                v
            },
            None => room.state.winning_point,
        };
        room.state.play_limit_secs = play_limit;
        room.state.winning_point = point;
        assert(room@ =~= before.with_settings(play_limit_secs, winning_point));
        let mut out = MutateOut::default();
        out.tell(ServerMsg::RoomSettings { play_limit_secs: play_limit, winning_point: point });
        out.answer(ServerMsg::RoomSettings { play_limit_secs: play_limit, winning_point: point });
        Ok(out)
    }

    /// A player says whether they are ready.
    pub fn ready_player(&self, room: &mut Room, player_id: usize, ready: bool) -> (r: Result<
        MutateOut,
        String,
    >)
        requires
            player_id < old(room)@.ready.len() ==> (player_id as int)
                < old(room)@.players.len(),
        ensures
            final(room)@ == old(room)@.readied(player_id, ready),
            rooms::step_result(r) == old(room)@.ready_answer(player_id, ready),
            match old(room)@.ready_refusal(player_id) {
                Some(reason) => rooms::step_result(r) == Err::<OutModel, Seq<char>>(reason)
                    && final(room)@ == old(room)@,
                None => final(room)@ == (RoomModel {
                    ready: old(room)@.ready.update(player_id as int, ready),
                    ..old(room)@
                }) && rooms::step_result(r) == Ok::<OutModel, Seq<char>>(
                    OutModel::nothing().told(old(room)@.ready_msg(player_id, ready)).replied(
                        old(room)@.ready_msg(player_id, ready),
                    ),
                ),
            },
    {
        match room.set_ready(player_id, ready) {
            Err(e) => Err(e),
            Ok(_) => {
                let name = match room::find_seat(&room.players, player_id) {
                    Some(i) => {
                        assert(room@.players[i as int] == room.players@[i as int]@);
                        room.players[i].name.clone()
                    },
                    None => String::new(),
                };
                assert(name@ == (match room::seat_with_id(old(room)@.players, player_id, 0) {
                    Some(i) => old(room)@.players[i].name,
                    None => Seq::empty(),
                }));
                let mut out = MutateOut::default();
                out.tell(ServerMsg::PlayerReady { player_id, name: name.clone(), ready });
                out.answer(ServerMsg::PlayerReady { player_id, name, ready });
                Ok(out)
            },
        }
    }

    /// The creator starts a round, by the machine's clock.
    pub fn start_game(&self, room: &mut Room, player_id: usize) -> (r: Result<MutateOut, String>)
        requires
            old(room)@.startable(),
        ensures
            match old(room)@.start_refusal(player_id) {
                Some(reason) => rooms::step_result(r) == Err::<OutModel, Seq<char>>(reason)
                    && final(room)@ == old(room)@,
                None => rooms::step_result(r) == Ok::<OutModel, Seq<char>>(
                    final(room)@.start_report(),
                ) && exists|deck: Seq<Card>, now_ms: u64|
                    rules::is_shuffled_deck(deck) && rules::fair_deck(deck) && final(room)@
                        == #[trigger] old(room)@.round_started(deck, now_ms),
            },
    {
        let now_ms: u64 = state::now_millis();
        self.start_game_at(room, player_id, now_ms)
    }

    /// The creator starts a round at `now_ms`, once every human is ready: the
    /// first one, or the next one of a match that nobody has won yet.
    pub fn start_game_at(&self, room: &mut Room, player_id: usize, now_ms: u64) -> (r: Result<
        MutateOut,
        String,
    >)
        requires
            old(room)@.startable(),
        ensures
            match old(room)@.start_refusal(player_id) {
                Some(reason) => rooms::step_result(r) == Err::<OutModel, Seq<char>>(reason)
                    && final(room)@ == old(room)@,
                None => rooms::step_result(r) == Ok::<OutModel, Seq<char>>(
                    final(room)@.start_report(),
                ) && exists|deck: Seq<Card>|
                    rules::is_shuffled_deck(deck) && rules::fair_deck(deck) && final(room)@
                        == #[trigger] old(room)@.round_started(deck, now_ms),
            },
    {
        let ghost before = room@;
        if !find_host(room, player_id) {
            return Err("Only the room creator can start the game".to_owned());
        }
        if room.state.game_winner.is_some() {
            return Err("Match already won — a new game is locked".to_owned());
        }
        if room.state.phase != GamePhase::Lobby && room.state.phase != GamePhase::GameOver {
            return Err("Game already started".to_owned());
        }
        if room.state.phase == GamePhase::GameOver {
            room::set_all(&mut room.ready);
            room::set_all(&mut room.state.ready);
            assert(room@ =~= before.readied_for_next());
        } else if !room.all_human_ready() {
            return Err("Not all players are ready".to_owned());
        }
        let ghost readied = room@;
        assert(readied == before.readied_for_next());
        assert(readied.humans_ready());
        room.start_game();
        let ghost deck = choose|deck: Seq<Card>|
            rules::is_shuffled_deck(deck) && rules::fair_deck(deck) && room@
                == #[trigger] readied.game_started(deck);
        let ghost started = room@;
        if room.state.phase == GamePhase::ThreeDiscard {
            room.driver.arm_at(PendingAction::StepThreeDiscard, 600, now_ms);
        } else {
            room.driver.arm_at(PendingAction::EnterPlaying, 0, now_ms);
        }
        assert(room@ =~= started.start_armed(now_ms));
        assert(room@ == before.round_started(deck, now_ms));
        let mut out = MutateOut::default();
        out.tell(ServerMsg::GameStarted);
        out.tell(ServerMsg::State { state: room.state.clone() });
        out.answer(ServerMsg::State { state: room.state.clone() });
        Ok(out)
    }
}

impl RoomModel {
    /// Is there a player at the table for every seat, so that a round can be
    /// dealt? Once the match is won none will be.
    pub open spec fn startable(self) -> bool {
        self.state.game_winner is None ==> {
            &&& self.state.phase == GamePhase::GameOver ==> self.state.players.len() >= 4
                && self.state.turn_seq < u32::MAX
            &&& self.state.phase == GamePhase::Lobby ==> self.state.players.len() >= 4
                || self.state.players.len() >= self.players.len()
        }
    }
}

/// Nobody but the host changes the settings or starts a round.
pub proof fn law_only_host_decides(
    room: RoomModel,
    player_id: usize,
    play_limit_secs: Option<u32>,
    winning_point: Option<u32>,
)
    requires
        !room.is_host(player_id),
    ensures
        room.settings_refusal(player_id, play_limit_secs, winning_point) is Some,
        room.start_refusal(player_id) is Some,
{
}

/// A match that has been won cannot be gone on with.
pub proof fn law_won_match_is_closed(room: RoomModel, player_id: usize)
    requires
        room.state.game_winner is Some,
    ensures
        room.start_refusal(player_id) is Some,
{
}

/// Settings that were accepted are within their limits.
pub proof fn law_settings_within_limits(
    room: RoomModel,
    player_id: usize,
    play_limit_secs: Option<u32>,
    winning_point: Option<u32>,
)
    requires
        1 <= room.state.play_limit_secs <= 120,
        1 <= room.state.winning_point <= 9999,
        room.settings_refusal(player_id, play_limit_secs, winning_point) is None,
    ensures
        1 <= room.with_settings(play_limit_secs, winning_point).state.play_limit_secs <= 120,
        1 <= room.with_settings(play_limit_secs, winning_point).state.winning_point <= 9999,
{
}

/// When the next round of a match starts, the totals and the round's number
/// stay, everybody has thirteen cards and no points yet, and whoever finished
/// first leads.
pub proof fn law_next_round_continues_match(room: RoomModel, deck: Seq<Card>, now_ms: u64)
    requires
        room.state.phase == GamePhase::GameOver,
        room.state.players.len() >= 4,
        room.state.total_scores.len() >= room.state.players.len(),
        room.state.finished_order.len() > 0,
        rules::is_shuffled_deck(deck),
    ensures
        ({
            let after = room.round_started(deck, now_ms).state;
            &&& after.phase == GamePhase::Playing
            &&& after.round == room.state.round
            &&& after.total_scores == room.state.total_scores
            &&& after.current_player == room.state.finished_order[0]
            &&& after.three_discard is None
            &&& after.finished_order.len() == 0
            &&& forall|i: int|
                0 <= i < 4 ==> (#[trigger] after.players[i]).hand.len() == 13
                    && !after.players[i].finished
            &&& forall|i: int| 0 <= i < after.scores.len() ==> #[trigger] after.scores[i] == 0
            &&& room.round_started(deck, now_ms).driver.pending == Some(
                PendingAction::EnterPlaying,
            )
        }),
{
    let ready = room.readied_for_next();
    let reset = ready.table_reset();
    rules::law_deal_uses_whole_deck(reset, deck);
    let after = room.round_started(deck, now_ms).state;
    assert forall|i: int| 0 <= i < 4 implies (#[trigger] after.players[i]).hand.len() == 13
        && !after.players[i].finished by {
        assert(after.players[i] == reset.dealt(deck).players[i]);
    }
}

} // verus!
