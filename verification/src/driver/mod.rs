//! What moves a game on: the moves of humans, and what happens by itself when
//! its time has come. Nothing sleeps; a room holds what is due when, and
//! whoever looks at it next does it.
use crate::game::engine;
use crate::game::engine::GameEngine;
use crate::game::room::Room;
use crate::game::room::RoomModel;
use crate::game::rules;
use crate::game::state;
use crate::game::state::GameModel;
use crate::game::state::GamePhase;
use crate::game::state::PendingAction;
use crate::game::state::ThreeDiscardModel;
use crate::game::state::ThreeDiscardState;
use crate::game::turn;
use crate::protocol::MsgModel;
use crate::protocol::ServerMsg;
use crate::rooms::RoomManager;
use crate::store::MutateOut;
use crate::store::OutModel;
use crate::text;
use vstd::prelude::*;
use vstd::string::*;

pub mod liveness;
pub mod pace;
pub mod ticks;

verus! {

/// How many things that are due are done in a row.
pub const CHAIN_LIMIT: u32 = 8;

// ---------------------------------------------------------------------------
// Setting what comes next
// ---------------------------------------------------------------------------

impl GameModel {
    /// Is a bot at turn?
    pub open spec fn bot_at_turn(self) -> bool {
        (self.current_player as int) < self.players.len()
            && self.players[self.current_player as int].is_bot
    }
}

impl RoomModel {
    /// With a bot's turn pending if a bot is at turn, and else the watchdog set
    /// for the human at turn.
    pub open spec fn turn_armed(self, delay_ms: u64, now: u64) -> RoomModel {
        RoomModel {
            driver: if self.state.bot_at_turn() {
                self.driver.armed(PendingAction::BotTurn, delay_ms, now)
            } else {
                self.driver.watched(self.state, now).cleared()
            },
            ..self
        }
    }

    /// With what comes next set: the next turn while the game is on, nothing
    /// otherwise.
    pub open spec fn armed_after_playing(self, delay_ms: u64, now: u64) -> RoomModel {
        if self.state.phase != GamePhase::Playing {
            RoomModel { driver: self.driver.cleared().unwatched(), ..self }
        } else {
            self.turn_armed(delay_ms, now)
        }
    }
}

/// Sets a bot's turn, or the watchdog for a human's.
fn arm_turn(room: &mut Room, delay_ms: u64, now: u64)
    ensures
        final(room)@ == old(room)@.turn_armed(delay_ms, now),
{
    let ghost before = room@;
    let cp: usize = room.state.current_player;
    let is_bot: bool = if cp < room.state.players.len() {
        assert(before.state.players[cp as int] == room.state.players@[cp as int]@);
        room.state.players[cp].is_bot
    } else {
        false
    };
    if is_bot {
        room.driver.arm_at(PendingAction::BotTurn, delay_ms, now);
    } else {
        room.driver.arm_watchdog_at(&room.state, now);
        room.driver.clear_pending();
    }
    assert(room@ =~= before.turn_armed(delay_ms, now));
}

// ---------------------------------------------------------------------------
// Moves of humans
// ---------------------------------------------------------------------------

impl RoomModel {
    /// The game after a human has tried to play or, without cards, to pass.
    pub open spec fn move_tried(self, player_id: usize, cards: Option<Seq<Seq<char>>>) -> GameModel {
        match cards {
            Some(ids) => if self.state.ids_playable(player_id, ids) {
                self.state.played(player_id, ids)
            } else {
                self.state
            },
            None => self.state.after_pass(player_id),
        }
    }

    /// Does the try count? The turn has moved on or the round has ended.
    pub open spec fn move_counts(self, player_id: usize, cards: Option<Seq<Seq<char>>>) -> bool {
        let next = self.move_tried(player_id, cards);
        next.turn_seq != self.state.turn_seq || next.phase != self.state.phase
    }

    /// The room after a human's move. One that does not count leaves no trace.
    pub open spec fn human_moved(
        self,
        player_id: usize,
        cards: Option<Seq<Seq<char>>>,
        delay_ms: u64,
        now: u64,
    ) -> RoomModel {
        let next = RoomModel { state: self.move_tried(player_id, cards), ..self };
        if !self.move_counts(player_id, cards) {
            self
        } else if next.state.phase == GamePhase::Playing {
            next.turn_armed(delay_ms, now)
        } else {
            RoomModel { driver: next.driver.cleared(), ..next }
        }
    }
}

/// What an optional list of ids holds.
pub open spec fn opt_ids(cards: Option<Vec<String>>) -> Option<Seq<Seq<char>>> {
    match cards {
        Some(ids) => Some(text::texts(ids@)),
        None => None,
    }
}

impl RoomManager {
    /// A human plays cards or, without any, passes, by the machine's clock.
    pub fn apply_human_move(
        &self,
        room: &mut Room,
        player_id: usize,
        cards: Option<Vec<String>>,
    ) -> (r: MutateOut)
        requires
            old(room)@.state.movable(),
        ensures
            exists|now: u64|
                final(room)@ == #[trigger] old(room)@.human_moved(
                    player_id,
                    opt_ids(cards),
                    self@.bot_turn_delay_ms,
                    now,
                ),
            r@ == if old(room)@.move_counts(player_id, opt_ids(cards)) {
                OutModel::nothing().told(final(room)@.state_msg())
            } else {
                OutModel::nothing()
            },
    {
        let now: u64 = state::now_millis();
        self.apply_human_move_at(room, player_id, cards, now)
    }

    /// A human plays cards or, without any, passes, at `now`. Everybody is told
    /// if the move counts. Cards named in a way that could not be taken out of
    /// the hand, the same one too often, are not played.
    pub fn apply_human_move_at(
        &self,
        room: &mut Room,
        player_id: usize,
        cards: Option<Vec<String>>,
        now: u64,
    ) -> (r: MutateOut)
        requires
            old(room)@.state.movable(),
        ensures
            final(room)@ == old(room)@.human_moved(
                player_id,
                opt_ids(cards),
                self@.bot_turn_delay_ms,
                now,
            ),
            r@ == if old(room)@.move_counts(player_id, opt_ids(cards)) {
                OutModel::nothing().told(final(room)@.state_msg())
            } else {
                OutModel::nothing()
            },
    {
        let ghost before = room@;
        let ghost ids = opt_ids(cards);
        let mut engine = GameEngine::new(room.state.clone());
        match &cards {
            Some(list) => {
                if engine::ids_can_be_played(&room.state, player_id, list.as_slice()) {
                    engine.apply_play(player_id, list.as_slice());
                }
            },
            None => {
                engine.apply_pass(player_id);
            },
        }
        assert(engine@ == before.move_tried(player_id, ids));
        let next = engine.into_state();
        let mut out = MutateOut::default();
        if next.turn_seq == room.state.turn_seq && next.phase == room.state.phase {
            return out;
        }
        room.state = next;
        assert(room@ =~= (RoomModel { state: before.move_tried(player_id, ids), ..before }));
        if room.state.phase == GamePhase::Playing {
            arm_turn(room, self.get_bot_turn_delay_ms(), now);
        } else {
            let ghost mid = room@;
            room.driver.clear_pending();
            assert(room@ =~= (RoomModel { driver: mid.driver.cleared(), ..mid }));
        }
        out.tell(ServerMsg::State { state: room.state.clone() });
        out
    }
}

// ---------------------------------------------------------------------------
// What is due
// ---------------------------------------------------------------------------

/// The line with which play begins.
pub open spec fn lead_text(round: usize, lead: Seq<char>) -> Seq<char> {
    if round > 1 {
        "Round "@ + text::decimal(round as nat) + "! "@ + lead + " leads first trick."@
    } else {
        "Game starts! "@ + lead + " leads first trick."@
    }
}

/// The line about a seat's threes. How many there are is public; which ones is
/// not.
pub open spec fn discard_line(name: Seq<char>, count: nat) -> Seq<char> {
    if count > 0 {
        name + " discarded their 3s ("@ + text::decimal(count) + " 3s)"@
    } else {
        name + " has no 3s"@
    }
}

/// The line about a player whose time has run out.
pub open spec fn idle_line(name: Seq<char>, played: Option<Seq<char>>) -> Seq<char> {
    name + " hit the time limit — auto-move "@ + match played {
        Some(ids) => ids,
        None => "pass"@,
    }
}

/// The first seat of the discard order, from `from` on, that has not discarded
/// yet.
pub open spec fn next_to_discard(td: ThreeDiscardModel, from: int) -> Option<usize>
    decreases td.order.len() - from,
{
    if from >= td.order.len() {
        None
    } else if !td.discarded[td.order[from] as int] {
        Some(td.order[from])
    } else {
        next_to_discard(td, from + 1)
    }
}

impl GameModel {
    /// The seat whose threes are to be discarded next, if any are.
    pub open spec fn discard_seat(self) -> Option<usize> {
        match self.three_discard {
            Some(td) => next_to_discard(td, 0),
            None => None,
        }
    }

    /// Threes are set aside only while they are being discarded, and of seats
    /// of the table only.
    pub open spec fn discard_sound(self) -> bool {
        self.three_discard matches Some(td) ==> {
            &&& self.phase == GamePhase::ThreeDiscard
            &&& td.order.len() > 0
            &&& forall|k: int|
                0 <= k < td.order.len() ==> (#[trigger] td.order[k] as int) < td.discarded.len()
                    && (td.order[k] as int) < self.players.len() && (td.order[k] as int)
                    < td.player_cards.len()
        }
    }

    /// After the seat's discard, with its line in the log.
    pub open spec fn discard_stepped(self, seat: usize) -> GameModel {
        self.discarded_by(seat).logged(
            discard_line(
                self.players[seat as int].name,
                self.three_discard.unwrap().player_cards[seat as int].len(),
            ),
        )
    }

    /// After what is done for the player whose time has run out.
    pub open spec fn idle_moved(self) -> GameModel {
        let seat = self.current_player;
        let name = self.players[seat as int].name;
        match turn::idle_choice(self, seat) {
            Some(c) => self.played(seat, seq![c.id()]).logged(idle_line(name, Some(c.id()))),
            None => self.after_pass(seat).logged(idle_line(name, None)),
        }
    }
}

impl RoomModel {
    /// Is no round on, so that nothing can happen at the table?
    pub open spec fn at_rest(self) -> bool {
        &&& self.state.phase == GamePhase::Lobby || self.state.phase == GamePhase::GameOver
        &&& self.state.three_discard is None
    }

    /// What has to hold for a room to be driven on for a number of steps.
    pub open spec fn drivable(self, steps: int) -> bool {
        ||| self.at_rest()
        ||| {
            &&& self.state.sound()
            &&& self.state.discard_sound()
            &&& self.state.turn_seq + steps <= u32::MAX
        }
    }

    /// The room after its pending action has been done.
    #[verifier::opaque]
    pub open spec fn fired(self, action: PendingAction, delay_ms: u64, now: u64) -> RoomModel {
        let idle = RoomModel { driver: self.driver.cleared(), ..self };
        match action {
            PendingAction::EnterPlaying => if self.state.phase != GamePhase::Playing {
                idle
            } else {
                let lead = self.state.players[self.state.current_player as int].name;
                (RoomModel {
                    state: self.state.logged(lead_text(self.state.round, lead)),
                    ..self
                }).armed_after_playing(delay_ms, now)
            },
            PendingAction::StepThreeDiscard => match self.state.discard_seat() {
                Some(seat) => {
                    let next = self.state.discard_stepped(seat);
                    RoomModel {
                        state: next,
                        driver: if next.phase == GamePhase::Playing {
                            self.driver.armed(PendingAction::EnterPlaying, 0, now)
                        } else {
                            self.driver.armed(PendingAction::StepThreeDiscard, 500, now)
                        },
                        ..self
                    }
                },
                None => RoomModel {
                    driver: self.driver.armed(PendingAction::EnterPlaying, 0, now),
                    ..self
                },
            },
            PendingAction::BotTurn => if self.state.phase != GamePhase::Playing {
                idle
            } else {
                let next = self.state.one_bot_turn();
                if next.bot_is_up() {
                    RoomModel {
                        state: next,
                        driver: self.driver.armed(PendingAction::BotTurn, delay_ms, now),
                        ..self
                    }
                } else {
                    RoomModel {
                        state: next.skipped(),
                        driver: self.driver.watched(next.skipped(), now).cleared(),
                        ..self
                    }
                }
            },
        }
    }

    /// What everybody is told of that.
    #[verifier::opaque]
    pub open spec fn fired_msgs(self, action: PendingAction) -> Seq<MsgModel> {
        match action {
            PendingAction::EnterPlaying => if self.state.phase != GamePhase::Playing {
                Seq::empty()
            } else {
                let lead = self.state.players[self.state.current_player as int].name;
                seq![
                    MsgModel::State {
                        state: self.state.logged(lead_text(self.state.round, lead)),
                    },
                ]
            },
            PendingAction::StepThreeDiscard => match self.state.discard_seat() {
                Some(seat) => seq![MsgModel::State { state: self.state.discard_stepped(seat) }],
                None => Seq::empty(),
            },
            PendingAction::BotTurn => if self.state.phase != GamePhase::Playing {
                Seq::empty()
            } else {
                let next = self.state.one_bot_turn();
                if !next.bot_is_up() && next.skipped().current_player != next.current_player {
                    seq![
                        MsgModel::State { state: next },
                        MsgModel::State { state: next.skipped() },
                    ]
                } else {
                    seq![MsgModel::State { state: next }]
                }
            },
        }
    }

    /// Is there a human at turn whose time can run out?
    pub open spec fn human_is_up(self) -> bool {
        &&& self.state.phase == GamePhase::Playing
        &&& (self.state.current_player as int) < self.state.players.len()
        &&& !self.state.players[self.state.current_player as int].is_bot
        &&& !self.state.players[self.state.current_player as int].finished
    }

    /// The room after the time of the player at turn has run out: a move is
    /// made for them.
    #[verifier::opaque]
    pub open spec fn watchdog_fired(self, delay_ms: u64, now: u64) -> RoomModel {
        let unwatched = RoomModel { driver: self.driver.unwatched(), ..self };
        if !self.human_is_up() {
            unwatched
        } else {
            (RoomModel { state: self.state.idle_moved(), ..unwatched }).armed_after_playing(
                delay_ms,
                now,
            )
        }
    }

    /// What everybody is told of that.
    #[verifier::opaque]
    pub open spec fn watchdog_msgs(self) -> Seq<MsgModel> {
        if !self.human_is_up() {
            Seq::empty()
        } else {
            seq![MsgModel::State { state: self.state.idle_moved() }]
        }
    }

    /// The room after up to `steps` things that are due have been done.
    pub open spec fn driven(self, delay_ms: u64, now: u64, steps: nat) -> RoomModel
        decreases steps,
    {
        if steps == 0 {
            self
        } else if self.driver.due(now) {
            self.fired(self.driver.pending.unwrap(), delay_ms, now).driven(
                delay_ms,
                now,
                (steps - 1) as nat,
            )
        } else if self.driver.watchdog_fires(self.state, now) {
            self.watchdog_fired(delay_ms, now).driven(delay_ms, now, (steps - 1) as nat)
        } else {
            self
        }
    }

    /// The room after what is due has been done, eight things at most.
    pub open spec fn caught_up(self, delay_ms: u64, now: u64) -> RoomModel {
        self.driven(delay_ms, now, 8)
    }

    /// What everybody is told of that, in order.
    pub open spec fn driven_msgs(self, delay_ms: u64, now: u64, steps: nat) -> Seq<MsgModel>
        decreases steps,
    {
        if steps == 0 {
            Seq::empty()
        } else if self.driver.due(now) {
            let action = self.driver.pending.unwrap();
            self.fired_msgs(action) + self.fired(action, delay_ms, now).driven_msgs(
                delay_ms,
                now,
                (steps - 1) as nat,
            )
        } else if self.driver.watchdog_fires(self.state, now) {
            self.watchdog_msgs() + self.watchdog_fired(delay_ms, now).driven_msgs(
                delay_ms,
                now,
                (steps - 1) as nat,
            )
        } else {
            Seq::empty()
        }
    }
}

proof fn lemma_next_to_discard(td: ThreeDiscardModel, from: int)
    requires
        0 <= from,
    ensures
        next_to_discard(td, from) matches Some(seat) ==> td.order.contains(seat)
            && !td.discarded[seat as int],
    decreases td.order.len() - from,
{
    if from < td.order.len() {
        lemma_next_to_discard(td, from + 1);
        assert(td.order.contains(td.order[from]));
    }
}

proof fn lemma_one_bot_turn_sound(game: GameModel)
    requires
        game.sound(),
        game.turn_seq < u32::MAX,
    ensures
        game.one_bot_turn().sound(),
        game.one_bot_turn().turn_seq <= game.turn_seq + 1,
        game.one_bot_turn().players.len() == game.players.len(),
        game.one_bot_turn().three_discard == game.three_discard,
{
    rules::lemma_first_unfinished(game, 0);
    if game.finished_order.len() < 3 && game.bot_is_up() {
        turn::lemma_bot_turn_sound(game);
        lemma_skipped_sound(game.bot_turn());
    }
}

proof fn lemma_skipped_sound(game: GameModel)
    requires
        game.sound(),
    ensures
        game.skipped().sound(),
{
    reveal_with_fuel(GameModel::active_from, 5);
}

proof fn lemma_idle_sound(game: GameModel)
    requires
        game.sound(),
        game.turn_seq < u32::MAX,
    ensures
        game.idle_moved().sound(),
        game.idle_moved().turn_seq <= game.turn_seq + 1,
        game.idle_moved().players.len() == game.players.len(),
        game.idle_moved().three_discard == game.three_discard,
{
    let seat = game.current_player;
    match turn::idle_choice(game, seat) {
        Some(c) => {
            engine::law_moves_keep_game_sound(game, seat, seq![c.id()]);
            lemma_move_fields(game, seat, seq![c.id()]);
        },
        None => {
            engine::law_moves_keep_game_sound(game, seat, Seq::empty());
            lemma_move_fields(game, seat, Seq::empty());
        },
    }
}

/// What no move changes, and how far it moves the turn counter.
proof fn lemma_move_fields(game: GameModel, seat: usize, ids: Seq<Seq<char>>)
    requires
        game.sound(),
        game.turn_seq < u32::MAX,
    ensures
        game.played(seat, ids).three_discard == game.three_discard,
        game.after_pass(seat).three_discard == game.three_discard,
        game.played(seat, ids).turn_seq <= game.turn_seq + 1,
        game.after_pass(seat).turn_seq <= game.turn_seq + 1,
        game.played(seat, ids).phase == game.phase || game.played(seat, ids).phase
            == GamePhase::GameOver,
        game.after_pass(seat).phase == game.phase || game.after_pass(seat).phase
            == GamePhase::GameOver,
{
}

proof fn lemma_discard_stepped_sound(game: GameModel, seat: usize)
    requires
        game.sound(),
        game.discard_sound(),
        game.three_discard matches Some(td) && td.order.contains(seat),
    ensures
        game.discard_stepped(seat).sound(),
        game.discard_stepped(seat).discard_sound(),
        game.discard_stepped(seat).turn_seq == game.turn_seq,
{
    let td = game.three_discard.unwrap();
    td.order.index_of_first_ensures(seat);
    let next = td.order.index_of_first(seat).unwrap() + 1;
    assert((td.order[0] as int) < game.players.len());
    if next < td.order.len() {
        assert((td.order[next] as int) < game.players.len());
    }
}

/// The log shows of a discard no more than whose it was and how many threes:
/// which ones they were makes no difference to it.
pub proof fn law_discard_log_counts_only(a: GameModel, b: GameModel, seat: usize)
    requires
        a.three_discard is Some,
        b.three_discard is Some,
        a.log == b.log,
        a.players[seat as int].name == b.players[seat as int].name,
        a.three_discard.unwrap().player_cards[seat as int].len()
            == b.three_discard.unwrap().player_cards[seat as int].len(),
    ensures
        a.discard_stepped(seat).log == b.discard_stepped(seat).log,
{
}

/// Driving a room on keeps it drivable.
proof fn lemma_fired_drivable(
    room: RoomModel,
    action: PendingAction,
    delay_ms: u64,
    now: u64,
    n: int,
)
    requires
        room.drivable(n),
        n > 0,
    ensures
        room.fired(action, delay_ms, now).drivable(n - 1),
{
    reveal(RoomModel::fired);
    match action {
        PendingAction::EnterPlaying => {},
        PendingAction::StepThreeDiscard => {
            if let Some(td) = room.state.three_discard {
                lemma_next_to_discard(td, 0);
                if let Some(seat) = room.state.discard_seat() {
                    lemma_discard_stepped_sound(room.state, seat);
                }
            }
        },
        PendingAction::BotTurn => {
            if !room.at_rest() {
                lemma_one_bot_turn_sound(room.state);
                lemma_skipped_sound(room.state.one_bot_turn());
            }
        },
    }
}

proof fn lemma_watchdog_drivable(room: RoomModel, delay_ms: u64, now: u64, n: int)
    requires
        room.drivable(n),
        n > 0,
    ensures
        room.watchdog_fired(delay_ms, now).drivable(n - 1),
{
    reveal(RoomModel::watchdog_fired);
    if !room.at_rest() {
        lemma_idle_sound(room.state);
    }
}

/// The first seat of the discard order that has not discarded yet.
fn find_next_to_discard(td: &ThreeDiscardState) -> (r: Option<usize>)
    requires
        forall|k: int|
            0 <= k < td@.order.len() ==> (#[trigger] td@.order[k] as int) < td@.discarded.len(),
    ensures
        r == next_to_discard(td@, 0),
{
    let mut i: usize = 0;
    while i < td.order.len()
        invariant
            i <= td.order.len(),
            forall|k: int|
                0 <= k < td@.order.len() ==> (#[trigger] td@.order[k] as int)
                    < td@.discarded.len(),
            next_to_discard(td@, 0) == next_to_discard(td@, i as int),
        decreases td.order.len() - i,
    {
        assert((td@.order[i as int] as int) < td@.discarded.len());
        if !td.discarded[td.order[i]] {
            return Some(td.order[i]);
        }
        i += 1;
    }
    None
}

/// Tells everybody the game.
fn tell_state(room: &Room, out: &mut MutateOut)
    ensures
        final(out)@ == old(out)@.told(room@.state_msg()),
{
    out.tell(ServerMsg::State { state: room.state.clone() });
}

impl OutModel {
    /// With more messages for everybody.
    pub open spec fn told_all(self, msgs: Seq<MsgModel>) -> OutModel {
        OutModel { broadcast: self.broadcast + msgs, ..self }
    }
}

impl RoomManager {
    /// Sets what comes next after a turn: a bot's turn, the watchdog for a
    /// human, or nothing where the game is not on.
    pub fn arm_after_playing(&self, room: &mut Room, delay_ms: u64, now: u64)
        ensures
            final(room)@ == old(room)@.armed_after_playing(delay_ms, now),
    {
        if room.state.phase != GamePhase::Playing {
            let ghost before = room@;
            room.driver.clear_pending();
            self.disarm_watchdog(room);
            assert(room@ =~= before.armed_after_playing(delay_ms, now));
        } else {
            arm_turn(room, delay_ms, now);
        }
    }

    /// Takes the watchdog away.
    pub fn disarm_watchdog(&self, room: &mut Room)
        ensures
            final(room)@ == (RoomModel { driver: old(room)@.driver.unwatched(), ..old(room)@ }),
    {
        room.driver.clear_watchdog();
        assert(room@ =~= (RoomModel { driver: old(room)@.driver.unwatched(), ..old(room)@ }));
    }

    /// Does a pending action: play begins, a seat discards its threes, or a bot
    /// takes its turn; and sets what comes next.
    pub fn fire_action(
        &self,
        room: &mut Room,
        action: PendingAction,
        delay_ms: u64,
        now: u64,
        out: &mut MutateOut,
    )
        requires
            old(room)@.drivable(1),
        ensures
            final(room)@ == old(room)@.fired(action, delay_ms, now),
            final(out)@ == old(out)@.told_all(old(room)@.fired_msgs(action)),
    {
        match action {
            PendingAction::EnterPlaying => self.enter_playing(room, delay_ms, now, out),
            PendingAction::StepThreeDiscard => self.step_three_discard(room, delay_ms, now, out),
            PendingAction::BotTurn => self.bot_turn(room, delay_ms, now, out),
        }
    }

    /// Play begins.
    fn enter_playing(&self, room: &mut Room, delay_ms: u64, now: u64, out: &mut MutateOut)
        requires
            old(room)@.drivable(1),
        ensures
            final(room)@ == old(room)@.fired(PendingAction::EnterPlaying, delay_ms, now),
            final(out)@ == old(out)@.told_all(
                old(room)@.fired_msgs(PendingAction::EnterPlaying),
            ),
    {
        proof {
            reveal(RoomModel::fired);
            reveal(RoomModel::fired_msgs);
        }
        let ghost before = room@;
        let ghost told = out@;
        if room.state.phase != GamePhase::Playing {
            room.driver.clear_pending();
            assert(room@ =~= before.fired(PendingAction::EnterPlaying, delay_ms, now));
            assert(out@ =~= told.told_all(before.fired_msgs(PendingAction::EnterPlaying)));
            return;
        }
        let cp: usize = room.state.current_player;
        assert(before.state.players[cp as int] == room.state.players@[cp as int]@);
        let mut line: String;
        if room.state.round > 1 {
            line = "Round ".to_owned();
            let number = text::decimal_text(room.state.round as u64);
            line.append(number.as_str());
            line.append("! ");
        } else {
            line = "Game starts! ".to_owned();
        }
        line.append(room.state.players[cp].name.as_str());
        line.append(" leads first trick.");
        engine::push_log(&mut room.state, line);
        let ghost logged = room@;
        assert(logged =~= (RoomModel {
            state: before.state.logged(
                lead_text(before.state.round, before.state.players[cp as int].name),
            ),
            ..before
        }));
        tell_state(room, out);
        assert(out@ =~= told.told_all(before.fired_msgs(PendingAction::EnterPlaying)));
        self.arm_after_playing(room, delay_ms, now);
    }

    /// A seat discards its threes.
    fn step_three_discard(&self, room: &mut Room, delay_ms: u64, now: u64, out: &mut MutateOut)
        requires
            old(room)@.drivable(1),
        ensures
            final(room)@ == old(room)@.fired(PendingAction::StepThreeDiscard, delay_ms, now),
            final(out)@ == old(out)@.told_all(
                old(room)@.fired_msgs(PendingAction::StepThreeDiscard),
            ),
    {
        proof {
            reveal(RoomModel::fired);
            reveal(RoomModel::fired_msgs);
        }
        let ghost before = room@;
        let ghost told = out@;
        let mut next: Option<usize> = None;
        let mut count: usize = 0;
        if let Some(td) = &room.state.three_discard {
            next = find_next_to_discard(td);
            proof {
                lemma_next_to_discard(td@, 0);
            }
            if let Some(seat) = next {
                assert((seat as int) < td@.player_cards.len());
                assert(td@.player_cards[seat as int] == td.player_cards@[seat as int]@);
                count = td.player_cards[seat].len();
            }
        }
        match next {
            None => {
                room.driver.arm_at(PendingAction::EnterPlaying, 0, now);
                assert(room@ =~= before.fired(PendingAction::StepThreeDiscard, delay_ms, now));
                assert(out@ =~= told.told_all(
                    before.fired_msgs(PendingAction::StepThreeDiscard),
                ));
            },
            Some(seat) => {
                assert(before.state.players[seat as int] == room.state.players@[seat as int]@);
                let mut line = room.state.players[seat].name.clone();
                if count > 0 {
                    line.append(" discarded their 3s (");
                    let number = text::decimal_text(count as u64);
                    line.append(number.as_str());
                    line.append(" 3s)");
                } else {
                    line.append(" has no 3s");
                }
                rules::process_three_discard(&mut room.state, seat);
                engine::push_log(&mut room.state, line);
                let ghost stepped = room@;
                assert(stepped =~= (RoomModel {
                    state: before.state.discard_stepped(seat),
                    ..before
                }));
                tell_state(room, out);
                if room.state.phase == GamePhase::Playing {
                    room.driver.arm_at(PendingAction::EnterPlaying, 0, now);
                } else {
                    room.driver.arm_at(PendingAction::StepThreeDiscard, 500, now);
                }
                assert(room@ =~= before.fired(PendingAction::StepThreeDiscard, delay_ms, now));
                assert(out@ =~= told.told_all(
                    before.fired_msgs(PendingAction::StepThreeDiscard),
                ));
            },
        }
    }

    /// A bot takes its turn.
    fn bot_turn(&self, room: &mut Room, delay_ms: u64, now: u64, out: &mut MutateOut)
        requires
            old(room)@.drivable(1),
        ensures
            final(room)@ == old(room)@.fired(PendingAction::BotTurn, delay_ms, now),
            final(out)@ == old(out)@.told_all(old(room)@.fired_msgs(PendingAction::BotTurn)),
    {
        proof {
            reveal(RoomModel::fired);
            reveal(RoomModel::fired_msgs);
        }
        let ghost before = room@;
        let ghost told = out@;
        if room.state.phase != GamePhase::Playing {
            room.driver.clear_pending();
            assert(room@ =~= before.fired(PendingAction::BotTurn, delay_ms, now));
            assert(out@ =~= told.told_all(before.fired_msgs(PendingAction::BotTurn)));
            return;
        }
        proof {
            lemma_one_bot_turn_sound(before.state);
        }
        let more = turn::process_one_bot_turn(&mut room.state);
        tell_state(room, out);
        if more {
            room.driver.arm_at(PendingAction::BotTurn, delay_ms, now);
        } else {
            let seat: usize = room.state.current_player;
            rules::skip_finished(&mut room.state);
            if room.state.current_player != seat {
                tell_state(room, out);
            }
            room.driver.arm_watchdog_at(&room.state, now);
            room.driver.clear_pending();
        }
        assert(room@ =~= before.fired(PendingAction::BotTurn, delay_ms, now));
        assert(out@ =~= told.told_all(before.fired_msgs(PendingAction::BotTurn)));
    }

    /// The time of the player at turn has run out: their lowest card that may
    /// be played alone is played, or they pass; and what comes next is set.
    pub fn fire_watchdog(&self, room: &mut Room, delay_ms: u64, now: u64, out: &mut MutateOut)
        requires
            old(room)@.drivable(1),
        ensures
            final(room)@ == old(room)@.watchdog_fired(delay_ms, now),
            final(out)@ == old(out)@.told_all(old(room)@.watchdog_msgs()),
    {
        proof {
            reveal(RoomModel::watchdog_fired);
            reveal(RoomModel::watchdog_msgs);
        }
        let ghost before = room@;
        let ghost told = out@;
        let cp: usize = room.state.current_player;
        if room.state.phase != GamePhase::Playing {
            self.disarm_watchdog(room);
            assert(out@ =~= told.told_all(before.watchdog_msgs()));
            return;
        }
        assert(before.state.players[cp as int] == room.state.players@[cp as int]@);
        if room.state.players[cp].is_bot || room.state.players[cp].finished {
            self.disarm_watchdog(room);
            assert(out@ =~= told.told_all(before.watchdog_msgs()));
            return;
        }
        let mut line = room.state.players[cp].name.clone();
        line.append(" hit the time limit — auto-move ");
        let choice = turn::idle_auto_move(&room.state, cp);
        let mut engine = GameEngine::new(room.state.clone());
        match &choice {
            Some(ids) => {
                let ghost c = turn::idle_choice(before.state, cp).unwrap();
                proof {
                    assert(room.state.players@[cp as int].hand.len() <= usize::MAX);
                    engine::law_distinct_ids_playable(before.state, cp, seq![c.id()]);
                }
                engine.apply_play(cp, ids.as_slice());
                let list = text::join_texts(ids, " ");
                assert(list@ == c.id()) by {
                    assert(text::texts(ids@) == seq![c.id()]);
                }
                line.append(list.as_str());
            },
            None => {
                engine.apply_pass(cp);
                line.append("pass");
            },
        }
        let mut next = engine.into_state();
        engine::push_log(&mut next, line);
        room.state = next;
        self.disarm_watchdog(room);
        let ghost moved = room@;
        assert(moved =~= (RoomModel {
            state: before.state.idle_moved(),
            driver: before.driver.unwatched(),
            ..before
        }));
        tell_state(room, out);
        assert(out@ =~= told.told_all(before.watchdog_msgs()));
        self.arm_after_playing(room, delay_ms, now);
    }

    /// Does what is due in a room, by the machine's clock. Says whether
    /// anything has happened that everybody is to be told.
    pub fn drive_room(&self, room: &mut Room) -> (r: (MutateOut, bool))
        requires
            old(room)@.drivable(8),
        ensures
            exists|now: u64|
                #![trigger old(room)@.driven(self@.bot_turn_delay_ms, now, 8)]
                final(room)@ == old(room)@.driven(self@.bot_turn_delay_ms, now, 8) && r.0@
                    == OutModel::nothing().told_all(
                    old(room)@.driven_msgs(self@.bot_turn_delay_ms, now, 8),
                ) && r.1 == (r.0@.broadcast.len() > 0),
    {
        let now: u64 = state::now_millis();
        let out = self.drive_room_at(room, now);
        let told: bool = out.broadcast.len() > 0;
        (out, told)
    }

    /// Does what is due in a room at `now`: pending actions, and the move for a
    /// human whose time has run out. What comes due by that is done too, up to
    /// a limit.
    pub fn drive_room_at(&self, room: &mut Room, now: u64) -> (r: MutateOut)
        requires
            old(room)@.drivable(8),
        ensures
            final(room)@ == old(room)@.driven(self@.bot_turn_delay_ms, now, 8),
            final(room)@ == old(room)@.caught_up(self@.bot_turn_delay_ms, now),
            r@ == OutModel::nothing().told_all(
                old(room)@.driven_msgs(self@.bot_turn_delay_ms, now, 8),
            ),
    {
        let delay: u64 = self.get_bot_turn_delay_ms();
        let mut out = MutateOut::default();
        self.drive_steps(room, delay, now, CHAIN_LIMIT, &mut out);
        out
    }

    /// Does up to `left` things that are due.
    fn drive_steps(&self, room: &mut Room, delay_ms: u64, now: u64, left: u32, out: &mut MutateOut)
        requires
            old(room)@.drivable(left as int),
        ensures
            final(room)@ == old(room)@.driven(delay_ms, now, left as nat),
            final(out)@ == old(out)@.told_all(
                old(room)@.driven_msgs(delay_ms, now, left as nat),
            ),
        decreases left,
    {
        let ghost before = room@;
        let ghost told = out@;
        if left == 0 {
            assert(out@ =~= told.told_all(Seq::empty()));
            return;
        }
        if room.driver.is_due_at(now) {
            match room.driver.pending {
                Some(action) => {
                    proof {
                        lemma_fired_drivable(before, action, delay_ms, now, left as int);
                    }
                    self.fire_action(room, action, delay_ms, now, out);
                    let ghost fired = room@;
                    self.drive_steps(room, delay_ms, now, left - 1, out);
                    proof {
                        lemma_told_twice(
                            told,
                            before.fired_msgs(action),
                            fired.driven_msgs(delay_ms, now, (left - 1) as nat),
                        );
                    }
                },
                None => {
                    assert(false);
                },
            }
        } else if room.driver.watchdog_due_at(&room.state, now) {
            proof {
                lemma_watchdog_drivable(before, delay_ms, now, left as int);
            }
            self.fire_watchdog(room, delay_ms, now, out);
            let ghost fired = room@;
            self.drive_steps(room, delay_ms, now, left - 1, out);
            proof {
                lemma_told_twice(
                    told,
                    before.watchdog_msgs(),
                    fired.driven_msgs(delay_ms, now, (left - 1) as nat),
                );
            }
        } else {
            assert(out@ =~= told.told_all(Seq::empty()));
        }
    }
}

proof fn lemma_told_twice(out: OutModel, a: Seq<MsgModel>, b: Seq<MsgModel>)
    ensures
        out.told_all(a).told_all(b) == out.told_all(a + b),
{
    assert(out.broadcast + a + b =~= out.broadcast + (a + b));
}

} // verus!
