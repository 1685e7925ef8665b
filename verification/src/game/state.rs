//! The state of a table: the game on it, the room around it, and the timing of
//! what happens next.
use crate::game::card::Card;
use crate::game::combo;
use crate::game::combo::ComboType;
use crate::text;
use std::time::SystemTime;
use std::time::UNIX_EPOCH;
use vstd::prelude::*;

pub use crate::game::room::Room;
pub use crate::game::room::RoomPlayer;

verus! {

/// The clock of the machine (`std::time::SystemTime`), in seconds since the
/// Unix epoch; 0 where the clock stands before it. Nothing is claimed of the
/// number. Rooms travel between machines, so they hold wall-clock times only.
#[verifier::external_body]
pub fn now_secs() -> (r: u64) {
    SystemTime::now().duration_since(UNIX_EPOCH).map(|d| d.as_secs()).unwrap_or(0)
}

/// The clock of the machine (`std::time::SystemTime`), in milliseconds since
/// the Unix epoch; 0 where the clock stands before it. Nothing is claimed of
/// the number.
#[verifier::external_body]
pub fn now_millis() -> (r: u64) {
    SystemTime::now().duration_since(UNIX_EPOCH).map(|d| d.as_millis() as u64).unwrap_or(0)
}

/// A sum that stops at the largest `u64`.
pub open spec fn later(now: u64, delay: int) -> u64 {
    if now + delay > u64::MAX {
        u64::MAX
    } else {
        (now + delay) as u64
    }
}

/// A difference that stops at 0.
pub open spec fn elapsed(now: u64, since: u64) -> int {
    if now >= since {
        now - since
    } else {
        0
    }
}

/// A player at the table, as the game sees them.
#[derive(Debug, PartialEq)]
pub struct Player {
    pub id: usize,
    pub name: String,
    pub hand: Vec<Card>,
    pub finished: bool,
    pub is_bot: bool,
    pub connected: bool,
    pub is_creator: bool,
}

#[verifier::ext_equal]
pub struct PlayerModel {
    pub id: usize,
    pub name: Seq<char>,
    pub hand: Seq<Card>,
    pub finished: bool,
    pub is_bot: bool,
    pub connected: bool,
    pub is_creator: bool,
}

impl View for Player {
    type V = PlayerModel;

    open spec fn view(&self) -> PlayerModel {
        PlayerModel {
            id: self.id,
            name: self.name@,
            hand: self.hand@,
            finished: self.finished,
            is_bot: self.is_bot,
            connected: self.connected,
            is_creator: self.is_creator,
        }
    }
}

impl Clone for Player {
    fn clone(&self) -> (r: Self)
        ensures
            r@ == self@,
    {
        Player {
            id: self.id,
            name: self.name.clone(),
            hand: combo::copy_cards(&self.hand),
            finished: self.finished,
            is_bot: self.is_bot,
            connected: self.connected,
            is_creator: self.is_creator,
        }
    }
}

/// What the players hold.
pub open spec fn player_models(players: Seq<Player>) -> Seq<PlayerModel> {
    players.map_values(|p: Player| p@)
}

/// A copy of the players.
pub fn copy_players(players: &Vec<Player>) -> (r: Vec<Player>)
    ensures
        player_models(r@) == player_models(players@),
{
    let mut out: Vec<Player> = Vec::new();
    let mut i: usize = 0;
    while i < players.len()
        invariant
            i <= players.len(),
            out.len() == i,
            forall|k: int| 0 <= k < i ==> (#[trigger] out@[k])@ == players@[k]@,
        decreases players.len() - i,
    {
        let p = players[i].clone();
        out.push(p);
        i += 1;
    }
    assert(player_models(out@) =~= player_models(players@));
    out
}

/// A trick in progress: the cards on the table, who put them there and who has
/// passed since.
#[derive(Debug, PartialEq)]
pub struct TrickState {
    pub cards: Vec<Card>,
    pub combo_type: Option<ComboType>,
    pub combo_player: Option<usize>,
    pub passed: Vec<usize>,
    pub played: Vec<usize>,
}

#[verifier::ext_equal]
pub struct TrickModel {
    pub cards: Seq<Card>,
    pub combo_type: Option<ComboType>,
    pub combo_player: Option<usize>,
    pub passed: Seq<usize>,
    pub played: Seq<usize>,
}

impl View for TrickState {
    type V = TrickModel;

    open spec fn view(&self) -> TrickModel {
        TrickModel {
            cards: self.cards@,
            combo_type: self.combo_type,
            combo_player: self.combo_player,
            passed: self.passed@,
            played: self.played@,
        }
    }
}

impl TrickModel {
    /// A trick that nobody has led yet.
    pub open spec fn fresh() -> TrickModel {
        TrickModel {
            cards: Seq::empty(),
            combo_type: None,
            combo_player: None,
            passed: Seq::empty(),
            played: Seq::empty(),
        }
    }
}

impl Clone for TrickState {
    fn clone(&self) -> (r: Self)
        ensures
            r@ == self@,
    {
        TrickState {
            cards: combo::copy_cards(&self.cards),
            combo_type: self.combo_type,
            combo_player: self.combo_player,
            passed: copy_seats(&self.passed),
            played: copy_seats(&self.played),
        }
    }
}

impl TrickState {
    /// A trick that nobody has led yet.
    pub fn new() -> (r: Self)
        ensures
            r@ == TrickModel::fresh(),
    {
        TrickState {
            cards: Vec::new(),
            combo_type: None,
            combo_player: None,
            passed: Vec::new(),
            played: Vec::new(),
        }
    }
}

/// A copy of a list of seats.
pub fn copy_seats(v: &Vec<usize>) -> (r: Vec<usize>)
    ensures
        r@ == v@,
{
    let mut out: Vec<usize> = Vec::new();
    let mut i: usize = 0;
    while i < v.len()
        invariant
            i <= v.len(),
            out@ == v@.take(i as int),
        decreases v.len() - i,
    {
        out.push(v[i]);
        assert(out@ =~= v@.take(i + 1));
        i += 1;
    }
    assert(v@.take(v.len() as int) =~= v@);
    out
}

/// A copy of a list of flags.
pub fn copy_flags(v: &Vec<bool>) -> (r: Vec<bool>)
    ensures
        r@ == v@,
{
    let mut out: Vec<bool> = Vec::new();
    let mut i: usize = 0;
    while i < v.len()
        invariant
            i <= v.len(),
            out@ == v@.take(i as int),
        decreases v.len() - i,
    {
        out.push(v[i]);
        assert(out@ =~= v@.take(i + 1));
        i += 1;
    }
    assert(v@.take(v.len() as int) =~= v@);
    out
}

/// A copy of a list of scores.
pub fn copy_scores(v: &Vec<i32>) -> (r: Vec<i32>)
    ensures
        r@ == v@,
{
    let mut out: Vec<i32> = Vec::new();
    let mut i: usize = 0;
    while i < v.len()
        invariant
            i <= v.len(),
            out@ == v@.take(i as int),
        decreases v.len() - i,
    {
        out.push(v[i]);
        assert(out@ =~= v@.take(i + 1));
        i += 1;
    }
    assert(v@.take(v.len() as int) =~= v@);
    out
}

/// The opening of a first round, in which the threes leave the hands: whose
/// turn it is and what each seat gives up.
#[derive(Debug, PartialEq)]
pub struct ThreeDiscardState {
    pub order: Vec<usize>,
    pub index: usize,
    pub player_cards: Vec<Vec<Card>>,
    pub discarded: Vec<bool>,
}

#[verifier::ext_equal]
pub struct ThreeDiscardModel {
    pub order: Seq<usize>,
    pub index: usize,
    pub player_cards: Seq<Seq<Card>>,
    pub discarded: Seq<bool>,
}

/// What lists of cards hold.
pub open spec fn card_lists(v: Seq<Vec<Card>>) -> Seq<Seq<Card>> {
    v.map_values(|h: Vec<Card>| h@)
}

impl View for ThreeDiscardState {
    type V = ThreeDiscardModel;

    open spec fn view(&self) -> ThreeDiscardModel {
        ThreeDiscardModel {
            order: self.order@,
            index: self.index,
            player_cards: card_lists(self.player_cards@),
            discarded: self.discarded@,
        }
    }
}

/// A copy of lists of cards.
pub fn copy_card_lists(v: &Vec<Vec<Card>>) -> (r: Vec<Vec<Card>>)
    ensures
        card_lists(r@) == card_lists(v@),
{
    let mut out: Vec<Vec<Card>> = Vec::new();
    let mut i: usize = 0;
    while i < v.len()
        invariant
            i <= v.len(),
            out.len() == i,
            forall|k: int| 0 <= k < i ==> (#[trigger] out@[k])@ == v@[k]@,
        decreases v.len() - i,
    {
        let h = combo::copy_cards(&v[i]);
        out.push(h);
        i += 1;
    }
    assert(card_lists(out@) =~= card_lists(v@));
    out
}

impl Clone for ThreeDiscardState {
    fn clone(&self) -> (r: Self)
        ensures
            r@ == self@,
    {
        ThreeDiscardState {
            order: copy_seats(&self.order),
            index: self.index,
            player_cards: copy_card_lists(&self.player_cards),
            discarded: copy_flags(&self.discarded),
        }
    }
}

#[derive(Debug, Clone, Copy, PartialEq, Eq, Structural)]
pub enum GamePhase {
    Lobby,
    ThreeDiscard,
    Playing,
    GameOver,
}

impl GamePhase {
    /// How the phase is called.
    pub open spec fn text(self) -> Seq<char> {
        match self {
            GamePhase::Lobby => "lobby"@,
            GamePhase::ThreeDiscard => "three_discard"@,
            GamePhase::Playing => "playing"@,
            GamePhase::GameOver => "game_over"@,
        }
    }

    /// The name of the phase.
    pub fn to_string(&self) -> (r: String)
        ensures
            r@ == self.text(),
    {
        match self {
            GamePhase::Lobby => "lobby".to_owned(),
            GamePhase::ThreeDiscard => "three_discard".to_owned(),
            GamePhase::Playing => "playing".to_owned(),
            GamePhase::GameOver => "game_over".to_owned(),
        }
    }
}

/// A game: its phase, its players and everything that is on the table.
#[derive(Debug, PartialEq)]
pub struct GameState {
    pub phase: GamePhase,
    pub players: Vec<Player>,
    pub ready: Vec<bool>,
    pub current_player: usize,
    pub trick: TrickState,
    /// The seats that have run out of cards, in that order.
    pub finished_order: Vec<usize>,
    /// The points of this round.
    pub scores: Vec<i32>,
    pub round: usize,
    /// The points of all rounds so far.
    pub total_scores: Vec<i32>,
    pub three_discard: Option<ThreeDiscardState>,
    pub log: Vec<String>,
    /// How many seconds a human has for a turn. Bots are exempt.
    pub play_limit_secs: u32,
    /// The match goes to the first seat whose total reaches this at the end of
    /// a round.
    pub winning_point: u32,
    /// The seat that has won the match. Set once and never cleared.
    pub game_winner: Option<usize>,
    /// Counts the turns, so that a timer set for one turn cannot fire on
    /// another.
    pub turn_seq: u32,
}

#[verifier::ext_equal]
pub struct GameModel {
    pub phase: GamePhase,
    pub players: Seq<PlayerModel>,
    pub ready: Seq<bool>,
    pub current_player: usize,
    pub trick: TrickModel,
    pub finished_order: Seq<usize>,
    pub scores: Seq<i32>,
    pub round: usize,
    pub total_scores: Seq<i32>,
    pub three_discard: Option<ThreeDiscardModel>,
    pub log: Seq<Seq<char>>,
    pub play_limit_secs: u32,
    pub winning_point: u32,
    pub game_winner: Option<usize>,
    pub turn_seq: u32,
}

/// What an optional discard state holds.
pub open spec fn discard_model(d: Option<ThreeDiscardState>) -> Option<ThreeDiscardModel> {
    match d {
        Some(t) => Some(t@),
        None => None,
    }
}

impl View for GameState {
    type V = GameModel;

    open spec fn view(&self) -> GameModel {
        GameModel {
            phase: self.phase,
            players: player_models(self.players@),
            ready: self.ready@,
            current_player: self.current_player,
            trick: self.trick@,
            finished_order: self.finished_order@,
            scores: self.scores@,
            round: self.round,
            total_scores: self.total_scores@,
            three_discard: discard_model(self.three_discard),
            log: text::texts(self.log@),
            play_limit_secs: self.play_limit_secs,
            winning_point: self.winning_point,
            game_winner: self.game_winner,
            turn_seq: self.turn_seq,
        }
    }
}

impl Clone for GameState {
    fn clone(&self) -> (r: Self)
        ensures
            r@ == self@,
    {
        GameState {
            phase: self.phase,
            players: copy_players(&self.players),
            ready: copy_flags(&self.ready),
            current_player: self.current_player,
            trick: self.trick.clone(),
            finished_order: copy_seats(&self.finished_order),
            scores: copy_scores(&self.scores),
            round: self.round,
            total_scores: copy_scores(&self.total_scores),
            three_discard: match &self.three_discard {
                Some(t) => Some(t.clone()),
                None => None,
            },
            log: text::copy_texts(&self.log),
            play_limit_secs: self.play_limit_secs,
            winning_point: self.winning_point,
            game_winner: self.game_winner,
            turn_seq: self.turn_seq,
        }
    }
}

/// The list, extended by zeros to at least `n` entries.
pub open spec fn padded(scores: Seq<i32>, n: nat) -> Seq<i32> {
    if scores.len() >= n {
        scores
    } else {
        scores + Seq::new((n - scores.len()) as nat, |i: int| 0i32)
    }
}

impl GameModel {
    /// How long a turn lasts, in seconds: the limit of the game, but at least
    /// one.
    pub open spec fn turn_secs(self) -> int {
        if self.play_limit_secs < 1 {
            1
        } else {
            self.play_limit_secs as int
        }
    }
}

impl GameState {
    /// Gives every seat a place in the totals. The scores of a round and the
    /// totals are separate: the totals run on from round to round.
    pub fn ensure_total_scores(&mut self)
        ensures
            final(self)@ == (GameModel {
                total_scores: padded(old(self)@.total_scores, old(self)@.players.len()),
                ..old(self)@
            }),
    {
        pad_scores(&mut self.total_scores, self.players.len());
        assert(self@ =~= (GameModel {
            total_scores: padded(old(self)@.total_scores, old(self)@.players.len()),
            ..old(self)@
        }));
    }
}

/// Extends the list by zeros to at least `n` entries.
pub fn pad_scores(scores: &mut Vec<i32>, n: usize)
    ensures
        final(scores)@ == padded(old(scores)@, n as nat),
{
    let ghost before = scores@;
    while scores.len() < n
        invariant
            scores.len() >= before.len(),
            scores.len() <= n || scores@ == before,
            scores@ == before + Seq::new((scores.len() - before.len()) as nat, |i: int| 0i32),
        decreases n - scores.len(),
    {
        scores.push(0);
        assert(scores@ =~= before + Seq::new(
            (scores.len() - before.len()) as nat,
            |i: int| 0i32,
        ));
    }
    assert(scores@ =~= padded(before, n as nat));
}

/// What the driver of a room has to do next. It lives in the room, so that
/// another machine can go on where one has stopped.
#[derive(Debug, Clone, Copy, PartialEq, Eq, Structural)]
pub enum PendingAction {
    /// The room has just begun to play: log who leads and go on to the bots.
    EnterPlaying,
    /// The next seat in the discard order gives up its threes.
    StepThreeDiscard,
    /// One bot takes its turn.
    BotTurn,
}

/// When the next thing happens in a room, in Unix milliseconds.
#[derive(Debug, Clone, Copy, PartialEq, Eq, Structural)]
pub struct DriverState {
    /// When the pending action is due. Means nothing while none is pending.
    pub next_action_at_ms: u64,
    pub pending: Option<PendingAction>,
    /// When the time of the human at turn runs out.
    pub watchdog_deadline_ms: Option<u64>,
    /// The turn that the watchdog was set for.
    pub watchdog_turn_seq: Option<u32>,
}

impl Default for DriverState {
    fn default() -> (r: Self)
        ensures
            r == DriverState::idle(),
    {
        DriverState {
            next_action_at_ms: 0,
            pending: None,
            watchdog_deadline_ms: None,
            watchdog_turn_seq: None,
        }
    }
}

impl DriverState {
    /// Nothing pending and no watchdog.
    pub open spec fn idle() -> DriverState {
        DriverState {
            next_action_at_ms: 0,
            pending: None,
            watchdog_deadline_ms: None,
            watchdog_turn_seq: None,
        }
    }

    /// Is an action pending whose time has come?
    pub open spec fn due(self, now: u64) -> bool {
        self.pending is Some && self.next_action_at_ms <= now
    }

    /// With an action pending for `delay_ms` after `now`.
    pub open spec fn armed(self, action: PendingAction, delay_ms: u64, now: u64) -> DriverState {
        DriverState {
            pending: Some(action),
            next_action_at_ms: later(now, delay_ms as int),
            ..self
        }
    }

    /// Without a pending action.
    pub open spec fn cleared(self) -> DriverState {
        DriverState { pending: None, ..self }
    }

    /// Without a watchdog.
    pub open spec fn unwatched(self) -> DriverState {
        DriverState { watchdog_deadline_ms: None, watchdog_turn_seq: None, ..self }
    }

    /// With the watchdog for the turn of `game`: set where a human who still
    /// has cards is at turn in a playing game, off otherwise.
    pub open spec fn watched(self, game: GameModel, now: u64) -> DriverState {
        let cp = game.current_player as int;
        if game.phase != GamePhase::Playing || cp >= game.players.len() || game.players[cp].is_bot
            || game.players[cp].finished {
            self.unwatched()
        } else {
            DriverState {
                watchdog_deadline_ms: Some(later(now, game.turn_secs() * 1000)),
                watchdog_turn_seq: Some(game.turn_seq),
                ..self
            }
        }
    }

    /// Has the time of the current turn run out? A watchdog that was set for
    /// another turn never fires.
    pub open spec fn watchdog_fires(self, game: GameModel, now: u64) -> bool {
        &&& self.watchdog_deadline_ms matches Some(due) && due <= now
        &&& self.watchdog_turn_seq == Some(game.turn_seq)
        &&& game.phase == GamePhase::Playing
    }

    /// Is an action pending whose time has come, by the machine's clock?
    pub fn is_due(&self) -> (r: bool)
        ensures
            exists|now: u64| r == #[trigger] self.due(now),
    {
        let now: u64 = now_millis();
        self.is_due_at(now)
    }

    /// Is an action pending whose time has come at `now`?
    pub fn is_due_at(&self, now: u64) -> (r: bool)
        ensures
            r == self.due(now),
    {
        self.pending.is_some() && self.next_action_at_ms <= now
    }

    /// Makes an action pending, `delay_ms` from now by the machine's clock.
    pub fn arm(&mut self, action: PendingAction, delay_ms: u64)
        ensures
            exists|now: u64| *final(self) == #[trigger] old(self).armed(action, delay_ms, now),
    {
        let now: u64 = now_millis();
        self.arm_at(action, delay_ms, now);
    }

    /// Makes an action pending, `delay_ms` from `now`.
    pub fn arm_at(&mut self, action: PendingAction, delay_ms: u64, now: u64)
        ensures
            *final(self) == old(self).armed(action, delay_ms, now),
    {
        self.pending = Some(action);
        self.next_action_at_ms = now.saturating_add(delay_ms);
    }

    /// Drops the pending action.
    pub fn clear_pending(&mut self)
        ensures
            *final(self) == old(self).cleared(),
    {
        self.pending = None;
    }

    /// Drops the watchdog.
    pub fn clear_watchdog(&mut self)
        ensures
            *final(self) == old(self).unwatched(),
    {
        self.watchdog_deadline_ms = None;
        self.watchdog_turn_seq = None;
    }

    /// Sets the watchdog for the current turn by the machine's clock, or drops
    /// it where the seat is a bot's or has finished.
    pub fn arm_watchdog(&mut self, state: &GameState)
        ensures
            exists|now: u64| *final(self) == #[trigger] old(self).watched(state@, now),
    {
        let now: u64 = now_millis();
        self.arm_watchdog_at(state, now);
    }

    /// Sets the watchdog for the current turn, counted from `now`, or drops it
    /// where the seat is a bot's or has finished.
    pub fn arm_watchdog_at(&mut self, state: &GameState, now: u64)
        ensures
            *final(self) == old(self).watched(state@, now),
    {
        let cp: usize = state.current_player;
        if state.phase != GamePhase::Playing || cp >= state.players.len()
            || state.players[cp].is_bot || state.players[cp].finished {
            self.clear_watchdog();
            return;
        }
        let secs: u64 = if state.play_limit_secs < 1 {
            1
        } else {
            state.play_limit_secs as u64
        };
        self.watchdog_deadline_ms = Some(now.saturating_add(secs * 1000));
        self.watchdog_turn_seq = Some(state.turn_seq);
    }

    /// Has the time of the current turn run out, by the machine's clock?
    pub fn watchdog_due(&self, state: &GameState) -> (r: bool)
        ensures
            exists|now: u64| r == #[trigger] self.watchdog_fires(state@, now),
    {
        let now: u64 = now_millis();
        self.watchdog_due_at(state, now)
    }

    /// Has the time of the current turn run out at `now`?
    pub fn watchdog_due_at(&self, state: &GameState, now: u64) -> (r: bool)
        ensures
            r == self.watchdog_fires(state@, now),
    {
        match (self.watchdog_deadline_ms, self.watchdog_turn_seq) {
            (Some(due), Some(seq)) => due <= now && seq == state.turn_seq && state.phase
                == GamePhase::Playing,
            _ => false,
        }
    }
}

/// A watchdog that was set for one turn stays silent on every other.
pub proof fn law_stale_watchdog_silent(
    driver: DriverState,
    armed_for: GameModel,
    armed_at: u64,
    game: GameModel,
    now: u64,
)
    requires
        armed_for.turn_seq != game.turn_seq,
    ensures
        !driver.watched(armed_for, armed_at).watchdog_fires(game, now),
{
}

/// A watchdog that was set for a turn fires at a later look if and only if the
/// game is being played, the turn is still the same and its time is over. Left
/// out is the one look at which it fires too early: the clock shows its largest
/// value, and the turn's end lies beyond it.
pub proof fn law_watchdog_fires_after_limit(
    driver: DriverState,
    armed_for: GameModel,
    armed_at: u64,
    game: GameModel,
    now: u64,
)
    requires
        armed_for.phase == GamePhase::Playing,
        (armed_for.current_player as int) < armed_for.players.len(),
        !armed_for.players[armed_for.current_player as int].is_bot,
        !armed_for.players[armed_for.current_player as int].finished,
        now < u64::MAX || armed_at + armed_for.turn_secs() * 1000 <= u64::MAX,
    ensures
        driver.watched(armed_for, armed_at).watchdog_fires(game, now) <==> {
            &&& game.phase == GamePhase::Playing
            &&& game.turn_seq == armed_for.turn_seq
            &&& now >= armed_at + armed_for.turn_secs() * 1000
        },
{
}

/// An action that was made pending is due once its delay is over, and not
/// before. Left out is the look at the largest value of the clock where the
/// delay ends beyond it.
pub proof fn law_action_due_after_delay(
    driver: DriverState,
    action: PendingAction,
    delay_ms: u64,
    armed_at: u64,
    now: u64,
)
    requires
        now < u64::MAX || armed_at + delay_ms <= u64::MAX,
    ensures
        driver.armed(action, delay_ms, armed_at).due(now) <==> now >= armed_at + delay_ms,
        driver.armed(action, delay_ms, armed_at).pending == Some(action),
        !driver.armed(action, delay_ms, armed_at).cleared().due(now),
{
}

/// Bots have no time limit: with a bot at turn no watchdog fires.
pub proof fn law_bots_exempt_from_watchdog(
    driver: DriverState,
    game: GameModel,
    armed_at: u64,
    now: u64,
)
    requires
        (game.current_player as int) < game.players.len(),
        game.players[game.current_player as int].is_bot,
    ensures
        !driver.watched(game, armed_at).watchdog_fires(game, now),
{
}

/// A time that lies beyond the end of the clock is its end: an action is set for
/// it, and a turn lasts until it.
pub proof fn law_clock_ends(
    driver: DriverState,
    action: PendingAction,
    delay_ms: u64,
    game: GameModel,
    now: u64,
)
    requires
        game.phase == GamePhase::Playing,
        (game.current_player as int) < game.players.len(),
        !game.players[game.current_player as int].is_bot,
        !game.players[game.current_player as int].finished,
    ensures
        now + delay_ms > u64::MAX ==> driver.armed(action, delay_ms, now).next_action_at_ms
            == u64::MAX,
        now + 1000 * game.play_limit_secs > u64::MAX ==> driver.watched(
            game,
            now,
        ).watchdog_deadline_ms == Some(u64::MAX),
{
}

} // verus!
