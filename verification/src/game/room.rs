//! A room: the seats around a game, who sits in them, who has dropped out and
//! may come back.
use crate::game::card::Card;
use crate::game::engine::GameEngine;
use crate::game::rules;
use crate::game::state;
use crate::game::state::DriverState;
use crate::game::state::GameModel;
use crate::game::state::GamePhase;
use crate::game::state::GameState;
use crate::game::state::Player;
use crate::game::state::PlayerModel;
use crate::game::state::TrickModel;
use crate::game::state::TrickState;
use crate::text;
use vstd::prelude::*;
use vstd::string::*;

verus! {

/// Who sits in a seat.
#[derive(Debug, PartialEq)]
pub struct RoomPlayer {
    pub id: usize,
    pub name: String,
    pub is_bot: bool,
    pub connected: bool,
    pub disconnect_time: Option<u64>,
    pub is_creator: bool,
    /// What a player shows to get their seat back. Bots have none.
    pub token: Option<String>,
}

#[verifier::ext_equal]
pub struct RoomPlayerModel {
    pub id: usize,
    pub name: Seq<char>,
    pub is_bot: bool,
    pub connected: bool,
    pub disconnect_time: Option<u64>,
    pub is_creator: bool,
    pub token: Option<Seq<char>>,
}

impl View for RoomPlayer {
    type V = RoomPlayerModel;

    open spec fn view(&self) -> RoomPlayerModel {
        RoomPlayerModel {
            id: self.id,
            name: self.name@,
            is_bot: self.is_bot,
            connected: self.connected,
            disconnect_time: self.disconnect_time,
            is_creator: self.is_creator,
            token: text::opt_text(self.token),
        }
    }
}

impl Clone for RoomPlayer {
    fn clone(&self) -> (r: Self)
        ensures
            r@ == self@,
    {
        RoomPlayer {
            id: self.id,
            name: self.name.clone(),
            is_bot: self.is_bot,
            connected: self.connected,
            disconnect_time: self.disconnect_time,
            is_creator: self.is_creator,
            token: match &self.token {
                Some(t) => Some(t.clone()),
                None => None,
            },
        }
    }
}

/// What the seats hold.
pub open spec fn seat_models(players: Seq<RoomPlayer>) -> Seq<RoomPlayerModel> {
    players.map_values(|p: RoomPlayer| p@)
}

/// A copy of the seats.
pub fn copy_room_players(players: &Vec<RoomPlayer>) -> (r: Vec<RoomPlayer>)
    ensures
        seat_models(r@) == seat_models(players@),
{
    let mut out: Vec<RoomPlayer> = Vec::new();
    let mut i: usize = 0;
    while i < players.len()
        invariant
            i <= players.len(),
            out.len() == i,
            forall|k: int| 0 <= k < i ==> (#[trigger] out@[k])@ == players@[k]@,
        decreases players.len() - i,
    {
        let p = players[i].clone();
        out.push(p);
        i += 1;
    }
    assert(seat_models(out@) =~= seat_models(players@));
    out
}

/// What a list of dropped-out players holds: seat, token and when they dropped.
pub open spec fn dropout_models(v: Seq<(usize, String, u64)>) -> Seq<(usize, Seq<char>, u64)> {
    v.map_values(|e: (usize, String, u64)| (e.0, e.1@, e.2))
}

/// A copy of a list of dropped-out players.
pub fn copy_dropouts(v: &Vec<(usize, String, u64)>) -> (r: Vec<(usize, String, u64)>)
    ensures
        dropout_models(r@) == dropout_models(v@),
{
    let mut out: Vec<(usize, String, u64)> = Vec::new();
    let mut i: usize = 0;
    while i < v.len()
        invariant
            i <= v.len(),
            out.len() == i,
            forall|k: int|
                0 <= k < i ==> (#[trigger] out@[k]).0 == v@[k].0 && out@[k].1@ == v@[k].1@
                    && out@[k].2 == v@[k].2,
        decreases v.len() - i,
    {
        let token = v[i].1.clone();
        out.push((v[i].0, token, v[i].2));
        i += 1;
    }
    assert(dropout_models(out@) =~= dropout_models(v@));
    out
}

/// A room.
#[derive(Debug, PartialEq)]
pub struct Room {
    pub code: String,
    pub state: GameState,
    pub players: Vec<RoomPlayer>,
    pub started: bool,
    pub is_public: bool,
    pub ready: Vec<bool>,
    /// Who has dropped out and may come back: seat, token and Unix seconds. The
    /// token is kept here so that a player can come back by another machine.
    pub disconnected_players: Vec<(usize, String, u64)>,
    /// Since when no human is connected.
    pub last_human_disconnect_at: Option<u64>,
    pub driver: DriverState,
}

#[verifier::ext_equal]
pub struct RoomModel {
    pub code: Seq<char>,
    pub state: GameModel,
    pub players: Seq<RoomPlayerModel>,
    pub started: bool,
    pub is_public: bool,
    pub ready: Seq<bool>,
    pub disconnected_players: Seq<(usize, Seq<char>, u64)>,
    pub last_human_disconnect_at: Option<u64>,
    pub driver: DriverState,
}

impl View for Room {
    type V = RoomModel;

    open spec fn view(&self) -> RoomModel {
        RoomModel {
            code: self.code@,
            state: self.state@,
            players: seat_models(self.players@),
            started: self.started,
            is_public: self.is_public,
            ready: self.ready@,
            disconnected_players: dropout_models(self.disconnected_players@),
            last_human_disconnect_at: self.last_human_disconnect_at,
            driver: self.driver,
        }
    }
}

impl Clone for Room {
    fn clone(&self) -> (r: Self)
        ensures
            r@ == self@,
    {
        Room {
            code: self.code.clone(),
            state: self.state.clone(),
            players: copy_room_players(&self.players),
            started: self.started,
            is_public: self.is_public,
            ready: state::copy_flags(&self.ready),
            disconnected_players: copy_dropouts(&self.disconnected_players),
            last_human_disconnect_at: self.last_human_disconnect_at,
            driver: self.driver,
        }
    }
}

// ---------------------------------------------------------------------------
// Opening a room and taking seats
// ---------------------------------------------------------------------------

impl RoomModel {
    /// A room in its lobby with nobody but its creator in it.
    pub open spec fn opened(code: Seq<char>, host: Seq<char>, token: Seq<char>) -> RoomModel {
        RoomModel {
            code,
            state: GameModel {
                phase: GamePhase::Lobby,
                players: seq![
                    PlayerModel {
                        id: 0,
                        name: host,
                        hand: Seq::empty(),
                        finished: false,
                        is_bot: false,
                        connected: true,
                        is_creator: true,
                    },
                ],
                ready: seq![true],
                current_player: 0,
                trick: TrickModel::fresh(),
                finished_order: Seq::empty(),
                scores: seq![0i32],
                round: 1,
                total_scores: seq![0i32],
                three_discard: None,
                log: Seq::empty(),
                play_limit_secs: 10,
                winning_point: 50,
                game_winner: None,
                turn_seq: 0,
            },
            players: seq![
                RoomPlayerModel {
                    id: 0,
                    name: host,
                    is_bot: false,
                    connected: true,
                    disconnect_time: None,
                    is_creator: true,
                    token: Some(token),
                },
            ],
            started: false,
            is_public: true,
            ready: seq![true],
            disconnected_players: Seq::empty(),
            last_human_disconnect_at: None,
            driver: DriverState::idle(),
        }
    }

    /// With one more seat, at the end. A bot has no token and is ready.
    pub open spec fn seated_last(self, name: Seq<char>, token: Option<Seq<char>>) -> RoomModel {
        let id = self.players.len() as usize;
        let is_bot = token is None;
        RoomModel {
            players: self.players.push(
                RoomPlayerModel {
                    id,
                    name,
                    is_bot,
                    connected: true,
                    disconnect_time: None,
                    is_creator: false,
                    token,
                },
            ),
            ready: self.ready.push(is_bot),
            state: GameModel {
                players: self.state.players.push(
                    PlayerModel {
                        id,
                        name,
                        hand: Seq::empty(),
                        finished: false,
                        is_bot,
                        connected: true,
                        is_creator: false,
                    },
                ),
                ready: self.state.ready.push(is_bot),
                scores: self.state.scores.push(0),
                ..self.state
            },
            ..self
        }
    }

    /// Why nobody can take a seat, if so.
    pub open spec fn entry_refusal(self) -> Option<Seq<char>> {
        if self.players.len() >= 4 {
            Some("Room is full"@)
        } else if self.started {
            Some("Game has already started"@)
        } else {
            None
        }
    }

    /// With the free seats of the table given to bots.
    pub open spec fn filled(self) -> RoomModel
        decreases 4 - self.players.len(),
    {
        if self.players.len() >= 4 {
            self
        } else {
            self.seated_last("Bot "@ + text::decimal(self.players.len() + 1), None).filled()
        }
    }

    /// The seats, the players of the game and everything that is kept by seat
    /// agree: as many of each, and each seat's number is its place.
    pub open spec fn aligned(self) -> bool {
        &&& self.state.players.len() == self.players.len()
        &&& self.ready.len() == self.players.len()
        &&& self.state.ready.len() == self.players.len()
        &&& self.state.scores.len() == self.players.len()
        &&& forall|i: int| 0 <= i < self.players.len() ==> (#[trigger] self.players[i]).id == i
        &&& forall|i: int|
            0 <= i < self.state.players.len() ==> (#[trigger] self.state.players[i]).id == i
    }
}

/// A new room's seats agree, and taking a seat keeps it so.
pub proof fn law_seats_stay_aligned(
    room: RoomModel,
    code: Seq<char>,
    name: Seq<char>,
    host_token: Seq<char>,
    token: Option<Seq<char>>,
)
    ensures
        RoomModel::opened(code, name, host_token).aligned(),
        room.aligned() && room.players.len() < usize::MAX ==> room.seated_last(
            name,
            token,
        ).aligned(),
{
}

/// A room that was aligned still is once its free seats are filled, and then
/// has at least four.
pub proof fn law_filling_aligns(room: RoomModel)
    requires
        room.aligned(),
    ensures
        room.filled().aligned(),
        room.filled().players.len() >= 4,
        room.filled().players.len() <= 4 || room.filled() == room,
    decreases 4 - room.players.len(),
{
    if room.players.len() < 4 {
        let next = room.seated_last("Bot "@ + text::decimal(room.players.len() + 1), None);
        law_seats_stay_aligned(
            room,
            room.code,
            "Bot "@ + text::decimal(room.players.len() + 1),
            Seq::empty(),
            None,
        );
        law_filling_aligns(next);
    }
}

impl Room {
    /// A new room in its lobby, with its creator in the first seat, ready.
    pub fn new(code: String, host_name: String, host_token: String) -> (r: Self)
        ensures
            r@ == RoomModel::opened(code@, host_name@, host_token@),
    {
        let mut players: Vec<RoomPlayer> = Vec::new();
        players.push(
            RoomPlayer {
                id: 0,
                name: host_name.clone(),
                is_bot: false,
                connected: true,
                disconnect_time: None,
                is_creator: true,
                token: Some(host_token),
            },
        );
        let mut at_table: Vec<Player> = Vec::new();
        at_table.push(
            Player {
                id: 0,
                name: host_name.clone(),
                hand: Vec::new(),
                finished: false,
                is_bot: false,
                connected: true,
                is_creator: true,
            },
        );
        let state = GameState {
            phase: GamePhase::Lobby,
            players: at_table,
            ready: vec![true],
            current_player: 0,
            trick: TrickState::new(),
            finished_order: Vec::new(),
            scores: vec![0],
            round: 1,
            total_scores: vec![0],
            three_discard: None,
            log: Vec::new(),
            play_limit_secs: 10,
            winning_point: 50,
            game_winner: None,
            turn_seq: 0,
        };
        let room = Room {
            code,
            state,
            players,
            started: false,
            is_public: true,
            ready: vec![true],
            disconnected_players: Vec::new(),
            last_human_disconnect_at: None,
            driver: DriverState::default(),
        };
        proof {
            let want = RoomModel::opened(code@, host_name@, host_token@);
            assert(room@.players =~= want.players);
            assert(room@.state.players =~= want.state.players);
            assert(room@.state.log =~= want.state.log);
            assert(room@.disconnected_players =~= want.disconnected_players);
            assert(room@.state =~= want.state);
            assert(room@ =~= want);
        }
        room
    }

    /// Adds a seat at the end.
    fn push_seat(&mut self, name: String, token: Option<String>) -> (r: usize)
        ensures
            final(self)@ == old(self)@.seated_last(name@, text::opt_text(token)),
            r == old(self)@.players.len(),
    {
        let ghost before = self@;
        let ghost key = text::opt_text(token);
        let id: usize = self.players.len();
        let is_bot: bool = token.is_none();
        let sitter = RoomPlayer {
            id,
            name: name.clone(),
            is_bot,
            connected: true,
            disconnect_time: None,
            is_creator: false,
            token,
        };
        self.players.push(sitter);
        self.ready.push(is_bot);
        let player = Player {
            id,
            name,
            hand: Vec::new(),
            finished: false,
            is_bot,
            connected: true,
            is_creator: false,
        };
        self.state.players.push(player);
        self.state.ready.push(is_bot);
        self.state.scores.push(0);
        proof {
            let want = before.seated_last(name@, key);
            assert(self@.players =~= before.players.push(sitter@));
            assert(self@.state.players =~= before.state.players.push(player@));
            assert(self@.state =~= want.state);
            assert(self@ =~= want);
        }
        id
    }

    /// A player takes the next seat. There are four, and only before the game
    /// has started.
    pub fn add_player(&mut self, name: String, token: String) -> (r: Result<usize, String>)
        ensures
            match old(self)@.entry_refusal() {
                Some(reason) => (r matches Err(e) && e@ == reason) && final(self)@ == old(self)@,
                None => r == Ok::<usize, String>(old(self)@.players.len() as usize)
                    && final(self)@ == old(self)@.seated_last(name@, Some(token@)),
            },
    {
        if self.players.len() >= 4 {
            return Err("Room is full".to_owned());
        }
        if self.started {
            return Err("Game has already started".to_owned());
        }
        Ok(self.push_seat(name, Some(token)))
    }

    /// A bot takes the next seat.
    pub fn add_bot(&mut self, name: String) -> (r: usize)
        ensures
            r == old(self)@.players.len(),
            final(self)@ == old(self)@.seated_last(name@, None),
    {
        self.push_seat(name, None)
    }

    /// Gives the free seats of the table to bots.
    fn fill_with_bots(&mut self)
        ensures
            final(self)@ == old(self)@.filled(),
            final(self)@.players.len() >= 4,
    {
        while self.players.len() < 4
            invariant
                self@.filled() == old(self)@.filled(),
            decreases 4 - self.players.len(),
        {
            let mut name = "Bot ".to_owned();
            let number = text::decimal_text((self.players.len() + 1) as u64);
            name.append(number.as_str());
            self.add_bot(name);
        }
    }
}

// ---------------------------------------------------------------------------
// Getting ready
// ---------------------------------------------------------------------------

impl RoomModel {
    /// Why a seat cannot be readied, if so.
    pub open spec fn ready_refusal(self, seat: usize) -> Option<Seq<char>> {
        if seat >= self.ready.len() {
            Some("Seat not found"@)
        } else if self.players[seat as int].is_bot {
            Some("Bots cannot be readied"@)
        } else {
            None
        }
    }

    /// With a seat readied or not, if it can be.
    pub open spec fn readied(self, seat: usize, ready: bool) -> RoomModel {
        if self.ready_refusal(seat) is Some {
            self
        } else {
            RoomModel { ready: self.ready.update(seat as int, ready), ..self }
        }
    }

    /// Is every human ready?
    pub open spec fn humans_ready(self) -> bool {
        forall|i: int|
            0 <= i < self.players.len() && i < self.ready.len() ==> (
            #[trigger] self.players[i]).is_bot || self.ready[i]
    }
}

impl Room {
    /// Sets whether a player is ready.
    pub fn set_ready(&mut self, seat_id: usize, ready: bool) -> (r: Result<(), String>)
        requires
            seat_id < old(self)@.ready.len() ==> (seat_id as int) < old(self)@.players.len(),
        ensures
            final(self)@ == old(self)@.readied(seat_id, ready),
            match old(self)@.ready_refusal(seat_id) {
                Some(reason) => r matches Err(e) && e@ == reason,
                None => r is Ok,
            },
    {
        if seat_id >= self.ready.len() {
            return Err("Seat not found".to_owned());
        }
        assert(self@.players[seat_id as int] == self.players@[seat_id as int]@);
        if self.players[seat_id].is_bot {
            return Err("Bots cannot be readied".to_owned());
        }
        self.ready.set(seat_id, ready);
        assert(self@ =~= old(self)@.readied(seat_id, ready));
        Ok(())
    }

    /// Is every human ready?
    pub fn all_human_ready(&self) -> (r: bool)
        ensures
            r == self@.humans_ready(),
    {
        let mut i: usize = 0;
        while i < self.players.len() && i < self.ready.len()
            invariant
                i <= self.players.len(),
                i <= self.ready.len(),
                forall|k: int|
                    0 <= k < i ==> (#[trigger] self@.players[k]).is_bot || self@.ready[k],
            decreases self.players.len() - i,
        {
            assert(self@.players[i as int] == self.players@[i as int]@);
            if !self.players[i].is_bot && !self.ready[i] {
                return false;
            }
            i += 1;
        }
        true
    }
}

// ---------------------------------------------------------------------------
// Starting rounds
// ---------------------------------------------------------------------------

/// As many times `true`.
pub open spec fn all_true(n: nat) -> Seq<bool> {
    Seq::new(n, |i: int| true)
}

/// As many zeros.
pub open spec fn zeros(n: nat) -> Seq<i32> {
    Seq::new(n, |i: int| 0i32)
}

impl RoomModel {
    /// With the hands cleared and the table set for the next round, before the
    /// cards are dealt.
    pub open spec fn table_reset(self) -> GameModel {
        let st = self.state;
        GameModel {
            turn_seq: (st.turn_seq + 1) as u32,
            players: st.players.map_values(
                |p: PlayerModel| PlayerModel { hand: Seq::empty(), finished: false, ..p },
            ),
            ready: all_true(st.ready.len()),
            finished_order: Seq::empty(),
            scores: zeros(state::padded(st.scores, st.players.len()).len()),
            total_scores: state::padded(st.total_scores, st.players.len()),
            trick: TrickModel::fresh(),
            three_discard: None,
            ..st
        }
    }

    /// With the next round dealt from a deck: it is played at once, everybody
    /// is ready, and whoever finished first in the last round leads. The
    /// totals and the round's number stay.
    pub open spec fn next_round(self, deck: Seq<Card>) -> RoomModel {
        RoomModel {
            state: GameModel {
                phase: GamePhase::Playing,
                current_player: if self.state.finished_order.len() > 0 {
                    self.state.finished_order[0]
                } else {
                    0
                },
                ..self.table_reset().dealt(deck)
            },
            ready: all_true(self.ready.len()),
            ..self
        }
    }

    /// With the first round dealt from a deck: bots take the free seats, and
    /// the discard of the threes begins.
    pub open spec fn first_round(self, deck: Seq<Card>) -> RoomModel {
        RoomModel {
            started: true,
            state: self.filled().state.dealt(deck).discarding(),
            ..self.filled()
        }
    }

    /// With a round started: the next one if one is over, else the first.
    pub open spec fn game_started(self, deck: Seq<Card>) -> RoomModel {
        if self.state.phase == GamePhase::GameOver {
            self.next_round(deck)
        } else {
            self.first_round(deck)
        }
    }
}

/// Sets all flags.
pub fn set_all(flags: &mut Vec<bool>)
    ensures
        final(flags)@ == all_true(old(flags)@.len()),
{
    let mut i: usize = 0;
    while i < flags.len()
        invariant
            i <= flags.len(),
            flags.len() == old(flags).len(),
            forall|k: int| 0 <= k < i ==> #[trigger] flags@[k],
        decreases flags.len() - i,
    {
        flags.set(i, true);
        i += 1;
    }
    assert(flags@ =~= all_true(old(flags)@.len()));
}

/// Clears all scores.
fn clear_scores(scores: &mut Vec<i32>)
    ensures
        final(scores)@ == zeros(old(scores)@.len()),
{
    let mut i: usize = 0;
    while i < scores.len()
        invariant
            i <= scores.len(),
            scores.len() == old(scores).len(),
            forall|k: int| 0 <= k < i ==> #[trigger] scores@[k] == 0,
        decreases scores.len() - i,
    {
        scores.set(i, 0);
        i += 1;
    }
    assert(scores@ =~= zeros(old(scores)@.len()));
}

/// Takes the players' cards away.
fn clear_hands(players: &mut Vec<Player>)
    ensures
        state::player_models(final(players)@) == state::player_models(old(players)@).map_values(
            |p: PlayerModel| PlayerModel { hand: Seq::empty(), finished: false, ..p },
        ),
{
    let ghost before = state::player_models(players@);
    let mut i: usize = 0;
    while i < players.len()
        invariant
            i <= players.len(),
            players.len() == before.len(),
            forall|k: int|
                0 <= k < i ==> (#[trigger] players@[k])@ == (PlayerModel {
                    hand: Seq::empty(),
                    finished: false,
                    ..before[k]
                }),
            forall|k: int| i <= k < players.len() ==> (#[trigger] players@[k])@ == before[k],
        decreases players.len() - i,
    {
        let ghost prev = players@;
        assert(prev[i as int]@ == before[i as int]);
        players[i].hand = Vec::new();
        players[i].finished = false;
        assert(players@[i as int]@ =~= (PlayerModel {
            hand: Seq::empty(),
            finished: false,
            ..before[i as int]
        }));
        i += 1;
    }
    assert(state::player_models(players@) =~= before.map_values(
        |p: PlayerModel| PlayerModel { hand: Seq::empty(), finished: false, ..p },
    ));
}

impl Room {
    /// Starts a round: the next one where one is over, else the first, with
    /// bots in the free seats.
    pub fn start_game(&mut self)
        requires
            old(self)@.state.phase == GamePhase::GameOver ==> old(self)@.state.players.len() >= 4
                && old(self)@.state.turn_seq < u32::MAX,
            old(self)@.state.phase != GamePhase::GameOver ==> old(self)@.state.players.len() >= 4
                || old(self)@.state.players.len() >= old(self)@.players.len(),
        ensures
            exists|deck: Seq<Card>|
                rules::is_shuffled_deck(deck) && rules::fair_deck(deck) && final(self)@
                    == #[trigger] old(self)@.game_started(deck),
    {
        let ghost before = self@;
        if self.state.phase == GamePhase::GameOver {
            self.start_next_round();
            proof {
                let deck = choose|deck: Seq<Card>|
                    rules::is_shuffled_deck(deck) && rules::fair_deck(deck) && self@
                        == #[trigger] before.next_round(deck);
                assert(self@ == before.game_started(deck));
            }
            return;
        }
        proof {
            lemma_filled_table(before);
        }
        self.fill_with_bots();
        self.started = true;
        let ghost full = self@;
        assert(full =~= (RoomModel { started: true, ..before.filled() }));
        self.deal_and_start_discard();
        proof {
            let deck = choose|deck: Seq<Card>|
                rules::is_shuffled_deck(deck) && rules::fair_deck(deck) && self@
                    == #[trigger] full.discard_dealt(deck);
            assert(self@ =~= before.game_started(deck));
        }
    }

    /// Starts the next round of a match: the cards are dealt straight away, and
    /// whoever finished first in the last round leads.
    pub fn start_next_round(&mut self)
        requires
            old(self)@.state.players.len() >= 4,
            old(self)@.state.turn_seq < u32::MAX,
        ensures
            exists|deck: Seq<Card>|
                rules::is_shuffled_deck(deck) && rules::fair_deck(deck) && final(self)@
                    == #[trigger] old(self)@.next_round(deck),
    {
        let ghost before = self@;
        let lead: usize = if self.state.finished_order.len() > 0 {
            self.state.finished_order[0]
        } else {
            0
        };
        self.state.turn_seq = self.state.turn_seq + 1;
        clear_hands(&mut self.state.players);
        set_all(&mut self.ready);
        set_all(&mut self.state.ready);
        self.state.finished_order = Vec::new();
        let seats: usize = self.state.players.len();
        state::pad_scores(&mut self.state.scores, seats);
        clear_scores(&mut self.state.scores);
        state::pad_scores(&mut self.state.total_scores, seats);
        self.state.trick = TrickState::new();
        self.state.three_discard = None;
        assert(self@.state =~= before.table_reset());
        let mut engine = GameEngine::new(self.state.clone());
        engine.deal_cards_guarded();
        let mut dealt = engine.into_state();
        let ghost deck = choose|deck: Seq<Card>|
            rules::is_shuffled_deck(deck) && rules::fair_deck(deck) && dealt@
                == #[trigger] before.table_reset().dealt(deck);
        dealt.phase = GamePhase::Playing;
        dealt.current_player = lead;
        self.state = dealt;
        assert(self@.state =~= before.next_round(deck).state);
        assert(self@ =~= before.next_round(deck));
    }

    /// Deals the cards and begins the discard of the threes.
    pub fn deal_and_start_discard(&mut self)
        requires
            old(self)@.state.players.len() >= 4,
        ensures
            exists|deck: Seq<Card>|
                rules::is_shuffled_deck(deck) && rules::fair_deck(deck) && final(self)@
                    == #[trigger] old(self)@.discard_dealt(deck),
    {
        let ghost before = self@;
        let mut engine = GameEngine::new(self.state.clone());
        engine.deal_cards_guarded();
        let ghost deck = choose|deck: Seq<Card>|
            rules::is_shuffled_deck(deck) && rules::fair_deck(deck) && engine@
                == #[trigger] before.state.dealt(deck);
        engine.start_three_discard();
        self.state = engine.into_state();
        assert(self@ =~= before.discard_dealt(deck));
    }
}

impl RoomModel {
    /// With the cards dealt from a deck and the discard of the threes begun.
    pub open spec fn discard_dealt(self, deck: Seq<Card>) -> RoomModel {
        RoomModel { state: self.state.dealt(deck).discarding(), ..self }
    }
}

proof fn lemma_filled_table(room: RoomModel)
    requires
        room.state.players.len() >= 4 || room.state.players.len() >= room.players.len(),
    ensures
        room.filled().state.players.len() >= 4,
        room.filled().players.len() >= 4,
    decreases 4 - room.players.len(),
{
    if room.players.len() < 4 {
        lemma_filled_table(
            room.seated_last("Bot "@ + text::decimal(room.players.len() + 1), None),
        );
    }
}

// ---------------------------------------------------------------------------
// Dropping out and coming back
// ---------------------------------------------------------------------------

/// Is the entry younger than the timeout?
pub open spec fn entry_alive(timeout_secs: u64, now: u64) -> spec_fn(
    (usize, Seq<char>, u64),
) -> bool {
    |e: (usize, Seq<char>, u64)| e.2 > state::elapsed(now, timeout_secs)
}

impl RoomModel {
    /// Has the seat's player been noted as dropped out?
    pub open spec fn has_dropout(self, seat: usize) -> bool {
        exists|i: int|
            0 <= i < self.disconnected_players.len() && (
            #[trigger] self.disconnected_players[i]).0 == seat
    }

    /// With the seat's player noted as dropped out, unless they are already.
    pub open spec fn with_dropout(self, seat: usize, token: Seq<char>, now: u64) -> RoomModel {
        if self.has_dropout(seat) {
            self
        } else {
            RoomModel {
                disconnected_players: self.disconnected_players.push((seat, token, now)),
                ..self
            }
        }
    }

    /// Without the dropped-out players whose time to come back is over.
    pub open spec fn dropouts_expired(self, timeout_secs: u64, now: u64) -> RoomModel {
        RoomModel {
            disconnected_players: self.disconnected_players.filter(entry_alive(timeout_secs, now)),
            ..self
        }
    }

    /// With a seat given back to a human, under a name and a token.
    pub open spec fn restored(self, seat: usize, name: Seq<char>, token: Seq<char>) -> RoomModel {
        RoomModel {
            players: if seat < self.players.len() {
                self.players.update(
                    seat as int,
                    RoomPlayerModel {
                        name,
                        is_bot: false,
                        connected: true,
                        disconnect_time: None,
                        token: Some(token),
                        ..self.players[seat as int]
                    },
                )
            } else {
                self.players
            },
            state: GameModel {
                players: if seat < self.state.players.len() {
                    self.state.players.update(
                        seat as int,
                        PlayerModel {
                            name,
                            is_bot: false,
                            connected: true,
                            ..self.state.players[seat as int]
                        },
                    )
                } else {
                    self.state.players
                },
                ..self.state
            },
            ..self
        }
    }

    /// Is any human connected?
    pub open spec fn human_present(self) -> bool {
        exists|i: int|
            0 <= i < self.players.len() && !(#[trigger] self.players[i]).is_bot
                && self.players[i].connected
    }

    /// With the time noted since when no human is connected, if none is.
    pub open spec fn absence_noted(self, now: u64) -> RoomModel {
        RoomModel {
            last_human_disconnect_at: if self.human_present() {
                None
            } else {
                Some(now)
            },
            ..self
        }
    }

    /// Has no human been connected for as long as the timeout?
    pub open spec fn orphaned(self, timeout_secs: u64, now: u64) -> bool {
        &&& !self.human_present()
        &&& self.last_human_disconnect_at matches Some(t) && state::elapsed(now, t) >= timeout_secs
    }
}

/// A room with a human in it is never orphaned.
pub proof fn law_room_with_human_not_orphaned(room: RoomModel, timeout_secs: u64, now: u64)
    requires
        room.human_present(),
    ensures
        !room.orphaned(timeout_secs, now),
        !room.absence_noted(now).orphaned(timeout_secs, now),
{
    let i = choose|i: int|
        0 <= i < room.players.len() && !(#[trigger] room.players[i]).is_bot
            && room.players[i].connected;
    assert(room.absence_noted(now).players[i].connected);
}

/// A room that everybody has left is orphaned once the timeout is over, and not
/// before.
pub proof fn law_empty_room_orphaned_after_timeout(
    room: RoomModel,
    left_at: u64,
    timeout_secs: u64,
    now: u64,
)
    requires
        !room.human_present(),
        left_at <= now,
    ensures
        room.absence_noted(left_at).orphaned(timeout_secs, now) <==> now - left_at >= timeout_secs,
{
    let noted = room.absence_noted(left_at);
    assert(noted.players == room.players);
    assert(!noted.human_present()) by {
        if noted.human_present() {
            let i = choose|i: int|
                0 <= i < noted.players.len() && !(#[trigger] noted.players[i]).is_bot
                    && noted.players[i].connected;
            assert(!room.players[i].is_bot && room.players[i].connected);
        }
    }
}

impl Room {
    /// Notes that a player has dropped out, by the machine's clock.
    pub fn add_disconnected_player(&mut self, seat_id: usize, token: String)
        ensures
            exists|now: u64|
                final(self)@ == #[trigger] old(self)@.with_dropout(seat_id, token@, now),
    {
        let now: u64 = state::now_secs();
        self.add_disconnected_player_at(seat_id, token, now);
    }

    /// Notes that a player has dropped out at `now`. A player who is noted
    /// already keeps their entry.
    pub fn add_disconnected_player_at(&mut self, seat_id: usize, token: String, now: u64)
        ensures
            final(self)@ == old(self)@.with_dropout(seat_id, token@, now),
    {
        let ghost before = self@;
        let mut i: usize = 0;
        while i < self.disconnected_players.len()
            invariant
                i <= self.disconnected_players.len(),
                self@ == before,
                forall|k: int|
                    0 <= k < i ==> (#[trigger] before.disconnected_players[k]).0 != seat_id,
            decreases self.disconnected_players.len() - i,
        {
            assert(before.disconnected_players[i as int].0
                == self.disconnected_players@[i as int].0);
            if self.disconnected_players[i].0 == seat_id {
                assert(before.has_dropout(seat_id));
                return;
            }
            i += 1;
        }
        assert(!before.has_dropout(seat_id));
        let ghost entry = (seat_id, token@, now);
        self.disconnected_players.push((seat_id, token, now));
        assert(self@.disconnected_players =~= before.disconnected_players.push(entry));
        assert(self@ =~= before.with_dropout(seat_id, entry.1, now));
    }

    /// Gives a seat back to a human. Their hand is untouched.
    pub fn restore_seat(&mut self, seat_id: usize, name: &str, token: &str)
        ensures
            final(self)@ == old(self)@.restored(seat_id, name@, token@),
    {
        let ghost before = self@;
        let ghost want = before.restored(seat_id, name@, token@);
        if seat_id < self.players.len() {
            assert(before.players[seat_id as int] == self.players@[seat_id as int]@);
            self.players[seat_id].name = name.to_owned();
            self.players[seat_id].is_bot = false;
            self.players[seat_id].connected = true;
            self.players[seat_id].disconnect_time = None;
            self.players[seat_id].token = Some(token.to_owned());
        }
        assert(self@.players =~= want.players);
        if seat_id < self.state.players.len() {
            assert(before.state.players[seat_id as int] == self.state.players@[seat_id as int]@);
            self.state.players[seat_id].name = name.to_owned();
            self.state.players[seat_id].is_bot = false;
            self.state.players[seat_id].connected = true;
        }
        assert(self@.state.players =~= want.state.players);
        assert(self@.state =~= want.state);
        assert(self@ =~= want);
    }

    /// Forgets the dropped-out players whose time to come back is over, by the
    /// machine's clock.
    pub fn cleanup_expired_disconnected(&mut self, timeout_secs: u64)
        ensures
            exists|now: u64|
                final(self)@ == #[trigger] old(self)@.dropouts_expired(timeout_secs, now),
    {
        let now: u64 = state::now_secs();
        self.cleanup_expired_disconnected_at(timeout_secs, now);
    }

    /// Forgets the dropped-out players whose time to come back is over at
    /// `now`.
    pub fn cleanup_expired_disconnected_at(&mut self, timeout_secs: u64, now: u64)
        ensures
            final(self)@ == old(self)@.dropouts_expired(timeout_secs, now),
    {
        let ghost before = self@;
        let ghost all = before.disconnected_players;
        let ghost alive = entry_alive(timeout_secs, now);
        let limit: u64 = now.saturating_sub(timeout_secs);
        let mut kept: Vec<(usize, String, u64)> = Vec::new();
        let mut i: usize = 0;
        proof {
            reveal(Seq::filter);
            assert(all.take(0) =~= Seq::empty());
            assert(dropout_models(kept@) =~= Seq::empty());
        }
        while i < self.disconnected_players.len()
            invariant
                i <= self.disconnected_players.len(),
                self@ == before,
                all == before.disconnected_players,
                alive == entry_alive(timeout_secs, now),
                limit == state::elapsed(now, timeout_secs),
                dropout_models(kept@) == all.take(i as int).filter(alive),
            decreases self.disconnected_players.len() - i,
        {
            let ghost prev = dropout_models(kept@);
            proof {
                reveal(Seq::filter);
                assert(all.take(i + 1).drop_last() =~= all.take(i as int));
                assert(all.take(i + 1).last() == all[i as int]);
            }
            let (seat, t) = (self.disconnected_players[i].0, self.disconnected_players[i].2);
            if t > limit {
                let token = self.disconnected_players[i].1.clone();
                kept.push((seat, token, t));
                assert(dropout_models(kept@) =~= prev.push(all[i as int]));
            }
            i += 1;
        }
        assert(all.take(all.len() as int) =~= all);
        self.disconnected_players = kept;
        assert(self@ =~= before.dropouts_expired(timeout_secs, now));
    }

    /// Is any human connected?
    pub fn has_connected_human(&self) -> (r: bool)
        ensures
            r == self@.human_present(),
    {
        let mut i: usize = 0;
        while i < self.players.len()
            invariant
                i <= self.players.len(),
                forall|k: int|
                    0 <= k < i ==> (#[trigger] self@.players[k]).is_bot
                        || !self@.players[k].connected,
            decreases self.players.len() - i,
        {
            assert(self@.players[i as int] == self.players@[i as int]@);
            if !self.players[i].is_bot && self.players[i].connected {
                return true;
            }
            i += 1;
        }
        false
    }

    /// Notes since when no human is connected, by the machine's clock.
    pub fn record_human_disconnect(&mut self)
        ensures
            exists|now: u64| final(self)@ == #[trigger] old(self)@.absence_noted(now),
    {
        let now: u64 = state::now_secs();
        self.record_human_disconnect_at(now);
    }

    /// Notes that no human is connected since `now`, if none is.
    pub fn record_human_disconnect_at(&mut self, now: u64)
        ensures
            final(self)@ == old(self)@.absence_noted(now),
    {
        let present = self.has_connected_human();
        self.last_human_disconnect_at = if present {
            None
        } else {
            Some(now)
        };
        assert(self@ =~= old(self)@.absence_noted(now));
    }

    /// A human is back.
    pub fn human_reconnected(&mut self)
        ensures
            final(self)@ == (RoomModel { last_human_disconnect_at: None, ..old(self)@ }),
    {
        self.last_human_disconnect_at = None;
        assert(self@ =~= (RoomModel { last_human_disconnect_at: None, ..old(self)@ }));
    }

    /// Has no human been connected for as long as the timeout, by the machine's
    /// clock?
    pub fn is_orphaned(&self, timeout_secs: u64) -> (r: bool)
        ensures
            exists|now: u64| r == #[trigger] self@.orphaned(timeout_secs, now),
    {
        let now: u64 = state::now_secs();
        self.is_orphaned_at(timeout_secs, now)
    }

    /// Has no human been connected for as long as the timeout at `now`?
    pub fn is_orphaned_at(&self, timeout_secs: u64, now: u64) -> (r: bool)
        ensures
            r == self@.orphaned(timeout_secs, now),
    {
        if self.has_connected_human() {
            return false;
        }
        match self.last_human_disconnect_at {
            Some(t) => now.saturating_sub(t) >= timeout_secs,
            None => false,
        }
    }
}

// ---------------------------------------------------------------------------
// The creator's crown
// ---------------------------------------------------------------------------

impl RoomModel {
    /// The place of the first connected human, from `from` on, other than the
    /// one who leaves.
    pub open spec fn heir(self, leaving: usize, from: int) -> Option<int>
        decreases self.players.len() - from,
    {
        if from >= self.players.len() {
            None
        } else if !self.players[from].is_bot && self.players[from].connected
            && self.players[from].id != leaving {
            Some(from)
        } else {
            self.heir(leaving, from + 1)
        }
    }

    /// With the crown passed on from the one who leaves, who wears it no longer,
    /// to the first connected human, who is ready with it. Happens in the lobby
    /// only.
    pub open spec fn crown_passed(self, leaving: usize) -> RoomModel {
        if self.state.phase != GamePhase::Lobby {
            self
        } else {
            match self.heir(leaving, 0) {
                None => self,
                Some(place) => {
                    let target = self.players[place].id;
                    RoomModel {
                        players: seat_uncrowned(
                            self.players.update(
                                place,
                                RoomPlayerModel { is_creator: true, ..self.players[place] },
                            ),
                            leaving,
                        ),
                        ready: flag_set(self.ready, target),
                        state: GameModel {
                            players: player_crowned(
                                player_crowned(self.state.players, target, true),
                                leaving,
                                false,
                            ),
                            ready: flag_set(self.state.ready, target),
                            ..self.state
                        },
                        ..self
                    }
                },
            }
        }
    }
}

/// The seats with the crown taken from the first one with this id.
pub open spec fn seat_uncrowned(players: Seq<RoomPlayerModel>, id: usize) -> Seq<RoomPlayerModel> {
    match seat_with_id(players, id, 0) {
        Some(at) => players.update(at, RoomPlayerModel { is_creator: false, ..players[at] }),
        None => players,
    }
}

/// The players with the crown given to, or taken from, the first one with this
/// id.
pub open spec fn player_crowned(players: Seq<PlayerModel>, id: usize, crown: bool) -> Seq<
    PlayerModel,
> {
    match player_with_id(players, id, 0) {
        Some(at) => players.update(at, PlayerModel { is_creator: crown, ..players[at] }),
        None => players,
    }
}

/// The flags with one of them set, if it is there.
pub open spec fn flag_set(flags: Seq<bool>, at: usize) -> Seq<bool> {
    if at < flags.len() {
        flags.update(at as int, true)
    } else {
        flags
    }
}

/// The place of the first player, from `from` on, with this id.
pub open spec fn player_with_id(players: Seq<PlayerModel>, id: usize, from: int) -> Option<int>
    decreases players.len() - from,
{
    if from >= players.len() {
        None
    } else if players[from].id == id {
        Some(from)
    } else {
        player_with_id(players, id, from + 1)
    }
}

/// The place of the first seat, from `from` on, with this id.
pub open spec fn seat_with_id(players: Seq<RoomPlayerModel>, id: usize, from: int) -> Option<int>
    decreases players.len() - from,
{
    if from >= players.len() {
        None
    } else if players[from].id == id {
        Some(from)
    } else {
        seat_with_id(players, id, from + 1)
    }
}

/// The place of the first player with this id.
pub fn find_player(players: &Vec<Player>, id: usize) -> (r: Option<usize>)
    ensures
        r matches Some(i) ==> i < players.len() && player_with_id(
            state::player_models(players@),
            id,
            0,
        ) == Some(i as int),
        r is None ==> player_with_id(state::player_models(players@), id, 0) is None,
{
    let ghost all = state::player_models(players@);
    let mut i: usize = 0;
    while i < players.len()
        invariant
            i <= players.len(),
            all == state::player_models(players@),
            player_with_id(all, id, 0) == player_with_id(all, id, i as int),
        decreases players.len() - i,
    {
        assert(all[i as int] == players@[i as int]@);
        if players[i].id == id {
            return Some(i);
        }
        i += 1;
    }
    None
}

/// The place of the first seat with this id.
pub fn find_seat(players: &Vec<RoomPlayer>, id: usize) -> (r: Option<usize>)
    ensures
        r matches Some(i) ==> i < players.len() && seat_with_id(seat_models(players@), id, 0)
            == Some(i as int),
        r is None ==> seat_with_id(seat_models(players@), id, 0) is None,
{
    let ghost all = seat_models(players@);
    let mut i: usize = 0;
    while i < players.len()
        invariant
            i <= players.len(),
            all == seat_models(players@),
            seat_with_id(all, id, 0) == seat_with_id(all, id, i as int),
        decreases players.len() - i,
    {
        assert(all[i as int] == players@[i as int]@);
        if players[i].id == id {
            return Some(i);
        }
        i += 1;
    }
    None
}

/// Sets a flag, if it is there.
fn set_flag(flags: &mut Vec<bool>, at: usize)
    ensures
        final(flags)@ == flag_set(old(flags)@, at),
{
    if at < flags.len() {
        flags.set(at, true);
    }
}

/// Gives the crown to a player, or takes it from them.
fn crown_player(players: &mut Vec<Player>, id: usize, crown: bool)
    ensures
        state::player_models(final(players)@) == player_crowned(
            state::player_models(old(players)@),
            id,
            crown,
        ),
{
    let ghost before = state::player_models(players@);
    if let Some(i) = find_player(players, id) {
        assert(before[i as int] == players@[i as int]@);
        players[i].is_creator = crown;
        assert(state::player_models(players@) =~= before.update(
            i as int,
            PlayerModel { is_creator: crown, ..before[i as int] },
        ));
    }
}

impl Room {
    fn find_heir(&self, leaving: usize) -> (r: Option<usize>)
        ensures
            r matches Some(i) ==> i < self.players.len() && self@.heir(leaving, 0) == Some(
                i as int,
            ),
            r is None ==> self@.heir(leaving, 0) is None,
    {
        let mut i: usize = 0;
        while i < self.players.len()
            invariant
                i <= self.players.len(),
                self@.heir(leaving, 0) == self@.heir(leaving, i as int),
            decreases self.players.len() - i,
        {
            assert(self@.players[i as int] == self.players@[i as int]@);
            if !self.players[i].is_bot && self.players[i].connected && self.players[i].id
                != leaving {
                return Some(i);
            }
            i += 1;
        }
        None
    }

    /// Passes the crown on from the one who leaves, who wears it no longer, to
    /// the first connected human, who is then ready: only the creator starts the game, and they
    /// cannot ready themselves. In the lobby only.
    pub fn transfer_crown_from(&mut self, leaving_id: usize)
        ensures
            final(self)@ == old(self)@.crown_passed(leaving_id),
    {
        if self.state.phase != GamePhase::Lobby {
            return;
        }
        let ghost before = self@;
        let place: usize = match self.find_heir(leaving_id) {
            Some(i) => i,
            None => {
                return;
            },
        };
        assert(before.players[place as int] == self.players@[place as int]@);
        let target: usize = self.players[place].id;
        self.players[place].is_creator = true;
        let ghost want = before.crown_passed(leaving_id);
        let ghost crowned = seat_models(self.players@);
        assert(crowned =~= before.players.update(
            place as int,
            RoomPlayerModel { is_creator: true, ..before.players[place as int] },
        ));
        if let Some(i) = find_seat(&self.players, leaving_id) {
            assert(crowned[i as int] == self.players@[i as int]@);
            self.players[i].is_creator = false;
        }
        assert(self@.players =~= want.players);
        crown_player(&mut self.state.players, target, true);
        crown_player(&mut self.state.players, leaving_id, false);
        assert(self@.state.players =~= want.state.players);
        set_flag(&mut self.ready, target);
        set_flag(&mut self.state.ready, target);
        assert(self@.state =~= want.state);
        assert(self@ =~= want);
    }
}

} // verus!
