//! The engine: a game, the moves of its players, and what they set off.
use crate::game::bot;
use crate::game::card;
use crate::game::card::Card;
use crate::game::combo;
use crate::game::combo::ComboType;
use crate::game::fairness;
use crate::game::rules;
use crate::game::state;
use crate::game::state::GameModel;
use crate::game::state::GamePhase;
use crate::game::state::GameState;
use crate::game::state::PlayerModel;
use crate::game::turn;
use crate::text;
use vstd::prelude::*;
use vstd::string::*;

verus! {

/// Something that a move has set off.
#[derive(Debug)]
pub enum GameEvent {
    CardsPlayed { player_id: usize, player_name: String, cards: Vec<String>, combo_name: String },
    TrickResolved { winner_id: usize, winner_name: String },
    PlayerFinished { player_id: usize, player_name: String, position: usize, score: i32 },
    GameOver { final_scores: Vec<i32>, finished_order: Vec<usize> },
}

#[verifier::ext_equal]
pub enum EventModel {
    CardsPlayed {
        player_id: usize,
        player_name: Seq<char>,
        cards: Seq<Seq<char>>,
        combo_name: Seq<char>,
    },
    TrickResolved { winner_id: usize, winner_name: Seq<char> },
    PlayerFinished { player_id: usize, player_name: Seq<char>, position: usize, score: i32 },
    GameOver { final_scores: Seq<i32>, finished_order: Seq<usize> },
}

impl View for GameEvent {
    type V = EventModel;

    open spec fn view(&self) -> EventModel {
        match *self {
            GameEvent::CardsPlayed {
                player_id,
                player_name,
                cards,
                combo_name,
            } => EventModel::CardsPlayed {
                player_id,
                player_name: player_name@,
                cards: text::texts(cards@),
                combo_name: combo_name@,
            },
            GameEvent::TrickResolved { winner_id, winner_name } => EventModel::TrickResolved {
                winner_id,
                winner_name: winner_name@,
            },
            GameEvent::PlayerFinished {
                player_id,
                player_name,
                position,
                score,
            } => EventModel::PlayerFinished {
                player_id,
                player_name: player_name@,
                position,
                score,
            },
            GameEvent::GameOver { final_scores, finished_order } => EventModel::GameOver {
                final_scores: final_scores@,
                finished_order: finished_order@,
            },
        }
    }
}

impl Clone for GameEvent {
    fn clone(&self) -> (r: Self)
        ensures
            r@ == self@,
    {
        match self {
            GameEvent::CardsPlayed {
                player_id,
                player_name,
                cards,
                combo_name,
            } => GameEvent::CardsPlayed {
                player_id: *player_id,
                player_name: player_name.clone(),
                cards: text::copy_texts(cards),
                combo_name: combo_name.clone(),
            },
            GameEvent::TrickResolved { winner_id, winner_name } => GameEvent::TrickResolved {
                winner_id: *winner_id,
                winner_name: winner_name.clone(),
            },
            GameEvent::PlayerFinished {
                player_id,
                player_name,
                position,
                score,
            } => GameEvent::PlayerFinished {
                player_id: *player_id,
                player_name: player_name.clone(),
                position: *position,
                score: *score,
            },
            GameEvent::GameOver { final_scores, finished_order } => GameEvent::GameOver {
                final_scores: state::copy_scores(final_scores),
                finished_order: state::copy_seats(finished_order),
            },
        }
    }
}

/// What a list of events holds.
pub open spec fn event_models(events: Seq<GameEvent>) -> Seq<EventModel> {
    events.map_values(|e: GameEvent| e@)
}

// ---------------------------------------------------------------------------
// What a move does
// ---------------------------------------------------------------------------

/// The place of the first card, from `from` on, that the id names.
pub open spec fn place_of_id(hand: Seq<Card>, id: Seq<char>, from: int) -> Option<usize>
    decreases hand.len() - from,
{
    if from >= hand.len() {
        None
    } else if hand[from].id() == id {
        Some(from as usize)
    } else {
        place_of_id(hand, id, from + 1)
    }
}

/// The places of the cards that the ids name; nothing where an id names no card
/// of the hand.
pub open spec fn places_of(hand: Seq<Card>, ids: Seq<Seq<char>>) -> Option<Seq<usize>>
    decreases ids.len(),
{
    if ids.len() == 0 {
        Some(Seq::empty())
    } else {
        match places_of(hand, ids.drop_last()) {
            None => None,
            Some(places) => match place_of_id(hand, ids.last(), 0) {
                Some(i) => Some(places.push(i)),
                None => None,
            },
        }
    }
}

/// How a place is called.
pub open spec fn ordinal(pos: nat) -> Seq<char> {
    if pos == 1 {
        "1st"@
    } else if pos == 2 {
        "2nd"@
    } else {
        "3rd"@
    }
}

pub open spec fn invalid_text(name: Seq<char>, error: Seq<char>) -> Seq<char> {
    name + "'s play is invalid: "@ + error
}

pub open spec fn play_text(name: Seq<char>, cards: Seq<Card>, kind: ComboType) -> Seq<char> {
    name + " plays "@ + text::joined(card::card_texts(cards), " "@) + " ("@ + kind.text() + ")"@
}

pub open spec fn finish_text(name: Seq<char>, pos: nat) -> Seq<char> {
    name + " finished ("@ + ordinal(pos) + "th, "@ + text::signed_decimal(
        rules::position_score(pos) as int,
    ) + " pts)"@
}

pub open spec fn pass_text(name: Seq<char>) -> Seq<char> {
    name + " passes"@
}

/// The line about a seat's threes.
pub open spec fn discard_text(name: Seq<char>, cards: Seq<Card>) -> Seq<char> {
    if cards.len() > 0 {
        name + " discarded "@ + text::joined(card::card_texts(cards), " "@) + " ("@
            + text::decimal(cards.len()) + " 3s)"@
    } else {
        name + " has no 3s"@
    }
}

impl GameModel {
    /// With a line in the log.
    pub open spec fn logged(self, line: Seq<char>) -> GameModel {
        GameModel { log: self.log.push(line), ..self }
    }

    /// The event that a round's end sets off.
    pub open spec fn over_event(self) -> EventModel {
        EventModel::GameOver { final_scores: self.scores, finished_order: self.finished_order }
    }

    /// The events of closing the round, if it is ripe for it.
    pub open spec fn closing_events(self) -> Seq<EventModel> {
        if self.ripe() {
            seq![self.finalized().over_event()]
        } else {
            Seq::empty()
        }
    }

    /// The events of settling a play or a pass.
    pub open spec fn settling_events(self) -> Seq<EventModel> {
        match self.trick_winner() {
            Some(winner) => if self.bomb_parties() is Some {
                seq![self.bombed().over_event()]
            } else {
                seq![
                    EventModel::TrickResolved {
                        winner_id: winner,
                        winner_name: self.players[winner as int].name,
                    },
                ] + self.led_by(winner).skipped().closing_events()
            },
            None => if self.finished_order.len() >= 3 {
                self.closing_events()
            } else {
                Seq::empty()
            },
        }
    }

    /// The verdict on playing the cards at these places of the seat's hand.
    pub open spec fn verdict_on(self, seat: usize, places: Seq<usize>) -> rules::ValidationModel {
        rules::verdict(
            bot::cards_at(self.players[seat as int].hand, places),
            bot::table_of(self),
        )
    }

    /// With the cards on the table and everything about them in the log, before
    /// anything is settled.
    pub open spec fn play_noted(self, seat: usize, places: Seq<usize>) -> GameModel {
        let p = self.players[seat as int];
        let cards = bot::cards_at(p.hand, places);
        let kind = self.kind_at(seat, places);
        let down = self.cards_down(seat, places, kind).logged(play_text(p.name, cards, kind));
        let told = if self.empties(seat, places) {
            down.logged(finish_text(p.name, self.finished_order.len() + 1))
        } else {
            down
        };
        told.bumped()
    }

    /// The event of running out of cards, if the player does.
    pub open spec fn finish_events(self, seat: usize, places: Seq<usize>) -> Seq<EventModel> {
        if self.empties(seat, places) {
            let pos = self.finished_order.len() + 1;
            seq![
                EventModel::PlayerFinished {
                    player_id: seat,
                    player_name: self.players[seat as int].name,
                    position: pos as usize,
                    score: rules::position_score(pos),
                },
            ]
        } else {
            Seq::empty()
        }
    }

    /// May the seat make a move that counts? It is at turn and the round is not
    /// decided.
    pub open spec fn accepts_move(self, seat: usize) -> bool {
        self.current_player == seat && self.finished_order.len() < 3
    }

    /// After the seat has tried to play the cards that the ids name. Out of
    /// turn, and with an id that names no card of the hand, nothing happens; a
    /// play against the rules goes into the log only.
    pub open spec fn played(self, seat: usize, ids: Seq<Seq<char>>) -> GameModel {
        if self.current_player != seat {
            self
        } else if self.finished_order.len() >= 3 {
            self.finalized()
        } else {
            match places_of(self.players[seat as int].hand, ids) {
                None => self,
                Some(places) => if self.verdict_on(seat, places).valid {
                    self.play_noted(seat, places).settled(true)
                } else {
                    self.logged(
                        invalid_text(
                            self.players[seat as int].name,
                            self.verdict_on(seat, places).error,
                        ),
                    )
                },
            }
        }
    }

    /// The events of trying to play.
    pub open spec fn played_events(self, seat: usize, ids: Seq<Seq<char>>) -> Seq<EventModel> {
        if self.current_player != seat {
            Seq::empty()
        } else if self.finished_order.len() >= 3 {
            self.closing_events()
        } else {
            match places_of(self.players[seat as int].hand, ids) {
                None => Seq::empty(),
                Some(places) => if self.verdict_on(seat, places).valid {
                    let p = self.players[seat as int];
                    self.finish_events(seat, places) + self.play_noted(
                        seat,
                        places,
                    ).settling_events() + if self.play_noted(seat, places).settled(true).phase
                        != GamePhase::GameOver {
                        seq![
                            EventModel::CardsPlayed {
                                player_id: seat,
                                player_name: p.name,
                                cards: card::card_texts(bot::cards_at(p.hand, places)),
                                combo_name: self.kind_at(seat, places).text(),
                            },
                        ]
                    } else {
                        Seq::empty()
                    }
                } else {
                    Seq::empty()
                },
            }
        }
    }

    /// May the seat pass? Somebody else's cards lie on the table.
    pub open spec fn may_pass(self, seat: usize) -> bool {
        self.trick.combo_player is Some && self.trick.combo_player != Some(seat)
    }

    /// With the pass and its line in the log, before anything is settled.
    pub open spec fn pass_noted(self, seat: usize) -> GameModel {
        self.passed_by(seat).logged(pass_text(self.players[seat as int].name)).bumped()
    }

    /// After the seat has tried to pass. Out of turn, on a free table and on
    /// one's own cards nothing happens.
    pub open spec fn after_pass(self, seat: usize) -> GameModel {
        if self.current_player != seat {
            self
        } else if self.finished_order.len() >= 3 {
            self.finalized()
        } else if !self.may_pass(seat) {
            self
        } else {
            self.pass_noted(seat).settled(true)
        }
    }

    /// The events of trying to pass.
    pub open spec fn pass_events(self, seat: usize) -> Seq<EventModel> {
        if self.current_player != seat {
            Seq::empty()
        } else if self.finished_order.len() >= 3 {
            self.closing_events()
        } else if !self.may_pass(seat) {
            Seq::empty()
        } else {
            self.pass_noted(seat).settling_events() + if self.pass_noted(seat).settled(true).phase
                != GamePhase::GameOver {
                seq![
                    EventModel::CardsPlayed {
                        player_id: seat,
                        player_name: self.players[seat as int].name,
                        cards: seq!["pass"@],
                        combo_name: "pass"@,
                    },
                ]
            } else {
                Seq::empty()
            }
        }
    }

    /// Do the ids name cards that can be taken out of the hand together? Ids of
    /// different cards always do; the same id several times may not.
    pub open spec fn ids_playable(self, seat: usize, ids: Seq<Seq<char>>) -> bool {
        self.accepts_move(seat) ==> (places_of(self.players[seat as int].hand, ids) matches Some(
            places,
        ) ==> (self.verdict_on(seat, places).valid ==> turn::can_take(
            self.players[seat as int].hand,
            places,
        )))
    }

    /// With the first `n` seats of the discard order told in the log.
    pub open spec fn discards_told(self, n: int) -> GameModel
        decreases n,
    {
        if n <= 0 {
            self
        } else {
            let td = self.three_discard.unwrap();
            let seat = td.order[n - 1] as int;
            self.discards_told(n - 1).logged(
                discard_text(self.players[seat].name, td.player_cards[seat]),
            )
        }
    }
}

// ---------------------------------------------------------------------------
// The engine
// ---------------------------------------------------------------------------

/// Puts a line in the log.
pub fn push_log(state: &mut GameState, line: String)
    ensures
        final(state)@ == old(state)@.logged(line@),
{
    let ghost before = state@;
    state.log.push(line);
    assert(state@.log =~= before.log.push(line@));
    assert(state@ =~= before.logged(line@));
}

/// The place of the card that the id names.
fn find_id(hand: &Vec<Card>, id: &str) -> (r: Option<usize>)
    ensures
        r == place_of_id(hand@, id@, 0),
        r matches Some(i) ==> i < hand.len(),
{
    let mut i: usize = 0;
    while i < hand.len()
        invariant
            i <= hand.len(),
            place_of_id(hand@, id@, 0) == place_of_id(hand@, id@, i as int),
        decreases hand.len() - i,
    {
        let own = hand[i].card_id();
        if text::same_text(own.as_str(), id) {
            return Some(i);
        }
        i += 1;
    }
    None
}

/// The places of the cards that the ids name.
fn find_ids(hand: &Vec<Card>, ids: &[String]) -> (r: Option<Vec<usize>>)
    ensures
        match r {
            Some(places) => places_of(hand@, text::texts(ids@)) == Some(places@) && forall|k: int|
                0 <= k < places@.len() ==> (#[trigger] places@[k] as int) < hand@.len(),
            None => places_of(hand@, text::texts(ids@)) is None,
        },
{
    let ghost all = text::texts(ids@);
    let mut places: Vec<usize> = Vec::new();
    let mut i: usize = 0;
    assert(all.take(0) =~= Seq::<Seq<char>>::empty());
    while i < ids.len()
        invariant
            i <= ids@.len(),
            all == text::texts(ids@),
            places_of(hand@, all.take(i as int)) == Some(places@),
            forall|k: int| 0 <= k < places@.len() ==> (#[trigger] places@[k] as int) < hand@.len(),
        decreases ids@.len() - i,
    {
        proof {
            let t = all.take(i + 1);
            assert(t.drop_last() =~= all.take(i as int));
            assert(t.last() == ids@[i as int]@);
        }
        match find_id(hand, ids[i].as_str()) {
            Some(at) => {
                places.push(at);
            },
            None => {
                proof {
                    lemma_missing_id(hand@, all, i + 1);
                }
                return None;
            },
        }
        i += 1;
    }
    assert(all.take(all.len() as int) =~= all);
    Some(places)
}

proof fn lemma_missing_id(hand: Seq<Card>, ids: Seq<Seq<char>>, n: int)
    requires
        0 <= n <= ids.len(),
        places_of(hand, ids.take(n)) is None,
    ensures
        places_of(hand, ids) is None,
    decreases ids.len() - n,
{
    if n < ids.len() {
        assert(ids.take(n + 1).drop_last() =~= ids.take(n));
        lemma_missing_id(hand, ids, n + 1);
    } else {
        assert(ids.take(n) =~= ids);
    }
}

/// Do the ids name cards that can be taken out of the hand together?
pub fn ids_can_be_played(state: &GameState, player_id: usize, card_ids: &[String]) -> (r: bool)
    requires
        (state@.current_player as int) < state@.players.len(),
    ensures
        r == state@.ids_playable(player_id, text::texts(card_ids@)),
{
    if state.current_player != player_id || state.finished_order.len() >= 3 {
        return true;
    }
    let hand = &state.players[player_id].hand;
    assert(hand@ == state@.players[player_id as int].hand);
    match find_ids(hand, card_ids) {
        None => true,
        Some(places) => {
            let cards = bot::pick_cards(hand.as_slice(), &places);
            let table = turn::table_combo(state);
            let result = rules::validate_play(cards.as_slice(), table.as_ref());
            !result.valid || turn::can_take_out(hand.len(), &places)
        },
    }
}

/// A game and the moves that can be made in it.
pub struct GameEngine {
    state: GameState,
}

impl View for GameEngine {
    type V = GameModel;

    closed spec fn view(&self) -> GameModel {
        self.state@
    }
}

impl GameEngine {
    pub fn new(state: GameState) -> (r: Self)
        ensures
            r@ == state@,
    {
        GameEngine { state }
    }

    /// Shuffles a deck and deals it out.
    pub fn deal_cards(&mut self)
        requires
            old(self)@.players.len() >= 4,
        ensures
            exists|deck: Seq<Card>|
                rules::is_shuffled_deck(deck) && final(self)@ == #[trigger] old(self)@.dealt(deck),
    {
        rules::deal_cards(&mut self.state);
    }

    /// Shuffles and deals, but never all four twos to one seat: bombs only
    /// answer a single two, so those four could never be played. Shuffles anew
    /// where one seat would get them; where that happens over and over, the
    /// seat has to give one of them away.
    pub fn deal_cards_guarded(&mut self)
        requires
            old(self)@.players.len() >= 4,
        ensures
            exists|deck: Seq<Card>|
                rules::is_shuffled_deck(deck) && rules::fair_deck(deck) && final(self)@
                    == #[trigger] old(self)@.dealt(deck),
    {
        let mut tries: usize = 1000;
        loop
            invariant
                self@ == old(self)@,
                self@.players.len() >= 4,
            decreases tries,
        {
            let mut deck = card::create_deck();
            card::shuffle(&mut deck);
            proof {
                rules::lemma_shuffled_deck_len(deck@);
            }
            match fairness::unfair_seat(&deck) {
                None => {
                    rules::deal_from(&mut self.state, &deck);
                    return;
                },
                Some(seat) => {
                    if tries == 0 {
                        fairness::share_twos(&mut deck, seat);
                        proof {
                            rules::lemma_shuffled_deck_len(deck@);
                        }
                        rules::deal_from(&mut self.state, &deck);
                        return;
                    }
                    tries -= 1;
                },
            }
        }
    }

    /// Begins the discard of the threes.
    pub fn start_three_discard(&mut self) -> (r: Vec<GameEvent>)
        requires
            old(self)@.players.len() >= 4,
        ensures
            final(self)@ == old(self)@.discarding(),
            r@.len() == 0,
    {
        rules::start_three_discard(&mut self.state);
        Vec::new()
    }

    /// Tells every seat's threes in the log and begins to play.
    pub fn complete_three_discard(&mut self) -> (r: Vec<GameEvent>)
        requires
            old(self)@.players.len() >= 4,
            old(self)@.three_discard matches Some(td) && td.order.len() > 0 && forall|k: int|
                0 <= k < td.order.len() ==> (#[trigger] td.order[k] as int)
                    < old(self)@.players.len() && (td.order[k] as int) < td.player_cards.len(),
        ensures
            final(self)@ == old(self)@.discards_told(
                old(self)@.three_discard.unwrap().order.len() as int,
            ).discard_over(),
            r@.len() == 0,
    {
        let ghost before = self@;
        let lines = discard_lines(&self.state);
        let mut i: usize = 0;
        while i < lines.len()
            invariant
                i <= lines.len(),
                before.three_discard is Some,
                lines.len() == before.three_discard.unwrap().order.len(),
                forall|k: int|
                    0 <= k < lines.len() ==> (#[trigger] lines@[k])@ == discard_text(
                        before.players[before.three_discard.unwrap().order[k] as int].name,
                        before.three_discard.unwrap().player_cards[
                            before.three_discard.unwrap().order[k] as int],
                    ),
                self@ == before.discards_told(i as int),
            decreases lines.len() - i,
        {
            let line = lines[i].clone();
            push_log(&mut self.state, line);
            i += 1;
        }
        proof {
            lemma_discards_told(before, lines.len() as int);
        }
        rules::finish_three_discard(&mut self.state);
        Vec::new()
    }

    /// A player plays the cards that the ids name. Returns what that has set
    /// off; nothing where the play does not count.
    pub fn apply_play(&mut self, player_id: usize, card_ids: &[String]) -> (r: Vec<GameEvent>)
        requires
            old(self)@.movable(),
            old(self)@.ids_playable(player_id, text::texts(card_ids@)),
        ensures
            final(self)@ == old(self)@.played(player_id, text::texts(card_ids@)),
            event_models(r@) == old(self)@.played_events(player_id, text::texts(card_ids@)),
    {
        let ghost before = self@;
        let ghost ids = text::texts(card_ids@);
        let mut events: Vec<GameEvent> = Vec::new();
        assert(event_models(events@) =~= Seq::<EventModel>::empty());
        if self.state.current_player != player_id {
            return events;
        }
        if self.state.finished_order.len() >= 3 {
            self.check_and_end_game(&mut events);
            assert(event_models(events@) =~= before.closing_events());
            return events;
        }
        let hand = &self.state.players[player_id].hand;
        assert(hand@ == before.players[player_id as int].hand);
        let places = match find_ids(hand, card_ids) {
            Some(p) => p,
            None => {
                return events;
            },
        };
        let cards = bot::pick_cards(hand.as_slice(), &places);
        let table = turn::table_combo(&self.state);
        let result = rules::validate_play(cards.as_slice(), table.as_ref());
        let name = self.state.players[player_id].name.clone();
        assert(name@ == before.players[player_id as int].name);
        if !result.valid {
            let mut line = name.clone();
            line.append("'s play is invalid: ");
            line.append(result.error.as_str());
            push_log(&mut self.state, line);
            return events;
        }
        proof {
            rules::law_verdict_explains(cards@, bot::table_of(before));
        }
        let kind = match &result.combo {
            Some(c) => c.combo_type,
            None => ComboType::Single,
        };
        let labels = card::labels(&cards);
        let out = turn::put_cards_down(&mut self.state, player_id, &places, kind);
        let line = play_line(&name, &labels, kind);
        push_log(&mut self.state, line);
        if out {
            let pos: usize = self.state.finished_order.len();
            self.tell_finish(player_id, &name, pos, &mut events);
        }
        turn::bump_turn(&mut self.state);
        let ghost noted = before.play_noted(player_id, places@);
        proof {
            turn::lemma_cards_down_sound(before, player_id, places@, kind);
            assert(self@ =~= noted);
            assert(event_models(events@) =~= before.finish_events(player_id, places@));
        }
        self.settle(&mut events);
        if self.state.phase != GamePhase::GameOver {
            let ghost told = event_models(events@);
            let event = GameEvent::CardsPlayed {
                player_id,
                player_name: name,
                cards: labels,
                combo_name: result.combo_name,
            };
            events.push(event);
            assert(event_models(events@) =~= told.push(event@));
        }
        assert(event_models(events@) =~= before.played_events(player_id, ids));
        events
    }

    /// A player passes. Returns what that has set off; nothing where the pass
    /// does not count.
    pub fn apply_pass(&mut self, player_id: usize) -> (r: Vec<GameEvent>)
        requires
            old(self)@.movable(),
        ensures
            final(self)@ == old(self)@.after_pass(player_id),
            event_models(r@) == old(self)@.pass_events(player_id),
    {
        let ghost before = self@;
        let mut events: Vec<GameEvent> = Vec::new();
        assert(event_models(events@) =~= Seq::<EventModel>::empty());
        if self.state.current_player != player_id {
            return events;
        }
        if self.state.finished_order.len() >= 3 {
            self.check_and_end_game(&mut events);
            assert(event_models(events@) =~= before.closing_events());
            return events;
        }
        match self.state.trick.combo_player {
            None => {
                return events;
            },
            Some(leader) => {
                if leader == player_id {
                    return events;
                }
            },
        }
        let name = self.state.players[player_id].name.clone();
        assert(name@ == before.players[player_id as int].name);
        turn::note_pass(&mut self.state, player_id);
        let mut line = name.clone();
        line.append(" passes");
        push_log(&mut self.state, line);
        turn::bump_turn(&mut self.state);
        assert(self@ =~= before.pass_noted(player_id));
        self.settle(&mut events);
        if self.state.phase != GamePhase::GameOver {
            let ghost told = event_models(events@);
            let mut shown: Vec<String> = Vec::new();
            shown.push("pass".to_owned());
            assert(text::texts(shown@) =~= seq!["pass"@]);
            let event = GameEvent::CardsPlayed {
                player_id,
                player_name: name,
                cards: shown,
                combo_name: "pass".to_owned(),
            };
            events.push(event);
            assert(event_models(events@) =~= told.push(event@));
        }
        assert(event_models(events@) =~= before.pass_events(player_id));
        events
    }

    /// Tells that a player has run out of cards.
    fn tell_finish(
        &mut self,
        player_id: usize,
        name: &String,
        pos: usize,
        events: &mut Vec<GameEvent>,
    )
        requires
            1 <= pos <= 3,
            (player_id as int) < old(self)@.scores.len(),
            old(self)@.scores[player_id as int] == rules::position_score(pos as nat),
        ensures
            final(self)@ == old(self)@.logged(finish_text(name@, pos as nat)),
            event_models(final(events)@) == event_models(old(events)@).push(
                EventModel::PlayerFinished {
                    player_id,
                    player_name: name@,
                    position: pos,
                    score: rules::position_score(pos as nat),
                },
            ),
    {
        let score: i32 = self.state.scores[player_id];
        let mut line = name.clone();
        line.append(" finished (");
        line.append(
            if pos == 1 {
                "1st"
            } else if pos == 2 {
                "2nd"
            } else {
                "3rd"
            },
        );
        line.append("th, ");
        let points = text::signed_text(score);
        line.append(points.as_str());
        line.append(" pts)");
        push_log(&mut self.state, line);
        let ghost told = event_models(events@);
        let event = GameEvent::PlayerFinished {
            player_id,
            player_name: name.clone(),
            position: pos,
            score,
        };
        events.push(event);
        assert(event_models(events@) =~= told.push(event@));
    }

    /// Settles a play or a pass: the trick, the round or the turn moves on.
    fn settle(&mut self, events: &mut Vec<GameEvent>)
        requires
            old(self)@.sound(),
        ensures
            final(self)@ == old(self)@.settled(true),
            event_models(final(events)@) == event_models(old(events)@)
                + old(self)@.settling_events(),
    {
        let ghost before = self@;
        let ghost told = event_models(events@);
        match rules::check_trick_complete(&self.state) {
            Some(winner) => {
                if rules::maybe_end_game_by_bomb(&mut self.state) {
                    push_game_over(&self.state, events);
                    assert(event_models(events@) =~= told + before.settling_events());
                    return;
                }
                self.resolve_trick(winner, events);
                self.check_and_end_game(events);
                assert(event_models(events@) =~= told + before.settling_events());
            },
            None => {
                if self.state.finished_order.len() >= 3 {
                    self.check_and_end_game(events);
                } else {
                    turn::move_on(&mut self.state);
                    rules::skip_finished(&mut self.state);
                    assert(event_models(events@) =~= told + before.settling_events());
                }
            },
        }
    }

    /// Clears the table; the winner, or whoever is next, leads.
    fn resolve_trick(&mut self, winner_id: usize, events: &mut Vec<GameEvent>)
        requires
            old(self)@.seated(),
            (winner_id as int) < old(self)@.players.len(),
        ensures
            final(self)@ == old(self)@.led_by(winner_id).skipped(),
            final(self)@.seated(),
            event_models(final(events)@) == event_models(old(events)@).push(
                EventModel::TrickResolved {
                    winner_id,
                    winner_name: old(self)@.players[winner_id as int].name,
                },
            ),
    {
        let name = self.state.players[winner_id].name.clone();
        assert(name@ == self@.players[winner_id as int].name);
        rules::resolve_trick(&mut self.state, winner_id);
        rules::skip_finished(&mut self.state);
        let ghost told = event_models(events@);
        let event = GameEvent::TrickResolved { winner_id, winner_name: name };
        events.push(event);
        assert(event_models(events@) =~= told.push(event@));
    }

    /// Closes the round if it is ripe for it.
    fn check_and_end_game(&mut self, events: &mut Vec<GameEvent>)
        requires
            old(self)@.seated(),
            old(self)@.phase != GamePhase::GameOver ==> old(self)@.headroom(),
        ensures
            final(self)@ == old(self)@.finalized(),
            event_models(final(events)@) == event_models(old(events)@)
                + old(self)@.closing_events(),
    {
        let ghost told = event_models(events@);
        proof {
            rules::lemma_last_placed_fits(self@);
        }
        if rules::finalize_game(&mut self.state) {
            push_game_over(&self.state, events);
        }
        assert(event_models(events@) =~= told + old(self)@.closing_events());
    }

    /// The game as it stands.
    pub fn state(&self) -> (r: &GameState)
        ensures
            r@ == self@,
    {
        &self.state
    }

    /// The game, to be changed.
    pub fn state_mut(&mut self) -> (r: &mut GameState)
        ensures
            r@ == old(self)@,
            final(self)@ == final(r)@,
    {
        &mut self.state
    }

    /// The game, out of the engine.
    pub fn into_state(self) -> (r: GameState)
        ensures
            r@ == self@,
    {
        self.state
    }
}

/// Adds the event of a round's end.
fn push_game_over(state: &GameState, events: &mut Vec<GameEvent>)
    ensures
        event_models(final(events)@) == event_models(old(events)@).push(state@.over_event()),
{
    let ghost told = event_models(events@);
    let event = GameEvent::GameOver {
        final_scores: state::copy_scores(&state.scores),
        finished_order: state::copy_seats(&state.finished_order),
    };
    events.push(event);
    assert(event_models(events@) =~= told.push(event@));
}

/// The line about a play.
fn play_line(name: &String, labels: &Vec<String>, kind: ComboType) -> (r: String)
    ensures
        r@ == name@ + " plays "@ + text::joined(text::texts(labels@), " "@) + " ("@ + kind.text()
            + ")"@,
{
    let mut line = name.clone();
    line.append(" plays ");
    let list = text::join_texts(labels, " ");
    line.append(list.as_str());
    line.append(" (");
    let kind_name = kind.to_string();
    line.append(kind_name.as_str());
    line.append(")");
    line
}

/// The lines about the seats' threes, in the discard order.
fn discard_lines(game: &GameState) -> (r: Vec<String>)
    requires
        game@.three_discard matches Some(td) && forall|k: int|
            0 <= k < td.order.len() ==> (#[trigger] td.order[k] as int) < game@.players.len() && (
            td.order[k] as int) < td.player_cards.len(),
    ensures
        r.len() == game@.three_discard.unwrap().order.len(),
        forall|k: int|
            0 <= k < r@.len() ==> (#[trigger] r@[k])@ == discard_text(
                game@.players[game@.three_discard.unwrap().order[k] as int].name,
                game@.three_discard.unwrap().player_cards[
                    game@.three_discard.unwrap().order[k] as int],
            ),
{
    let mut lines: Vec<String> = Vec::new();
    match &game.three_discard {
        None => {},
        Some(td) => {
            let ghost model = game@.three_discard.unwrap();
            assert(model == td@);
            let mut i: usize = 0;
            while i < td.order.len()
                invariant
                    i <= td.order.len(),
                    lines.len() == i,
                    model == td@,
                    forall|k: int|
                        0 <= k < model.order.len() ==> (#[trigger] model.order[k] as int)
                            < game@.players.len() && (model.order[k] as int)
                            < model.player_cards.len(),
                    forall|k: int|
                        0 <= k < i ==> (#[trigger] lines@[k])@ == discard_text(
                            game@.players[model.order[k] as int].name,
                            model.player_cards[model.order[k] as int],
                        ),
                decreases td.order.len() - i,
            {
                let seat: usize = td.order[i];
                assert((model.order[i as int] as int) < game@.players.len());
                assert(model.player_cards[seat as int] == td.player_cards@[seat as int]@);
                assert(game@.players[seat as int] == game.players@[seat as int]@);
                let cards = &td.player_cards[seat];
                let mut line = game.players[seat].name.clone();
                if cards.len() > 0 {
                    line.append(" discarded ");
                    let shown = card::labels(cards);
                    let list = text::join_texts(&shown, " ");
                    line.append(list.as_str());
                    line.append(" (");
                    let count = text::decimal_text(cards.len() as u64);
                    line.append(count.as_str());
                    line.append(" 3s)");
                } else {
                    line.append(" has no 3s");
                }
                lines.push(line);
                i += 1;
            }
        },
    }
    lines
}

proof fn lemma_discards_told(game: GameModel, n: int)
    ensures
        game.discards_told(n) == (GameModel { log: game.discards_told(n).log, ..game }),
    decreases n,
{
    if n > 0 {
        lemma_discards_told(game, n - 1);
    }
}

// ---------------------------------------------------------------------------
// What holds of every move
// ---------------------------------------------------------------------------

pub proof fn lemma_place_of_id(hand: Seq<Card>, id: Seq<char>, from: int)
    requires
        0 <= from,
        hand.len() <= usize::MAX,
    ensures
        match place_of_id(hand, id, from) {
            Some(i) => from <= i < hand.len() && hand[i as int].id() == id,
            None => forall|k: int| from <= k < hand.len() ==> (#[trigger] hand[k]).id() != id,
        },
    decreases hand.len() - from,
{
    if from < hand.len() && hand[from].id() != id {
        lemma_place_of_id(hand, id, from + 1);
    }
}

pub proof fn lemma_places_of(hand: Seq<Card>, ids: Seq<Seq<char>>)
    requires
        hand.len() <= usize::MAX,
    ensures
        places_of(hand, ids) matches Some(places) ==> places.len() == ids.len() && forall|k: int|
            0 <= k < ids.len() ==> (#[trigger] places[k] as int) < hand.len()
                && hand[places[k] as int].id() == ids[k],
    decreases ids.len(),
{
    if ids.len() > 0 {
        lemma_places_of(hand, ids.drop_last());
        lemma_place_of_id(hand, ids.last(), 0);
        if let Some(places) = places_of(hand, ids) {
            let rest = places_of(hand, ids.drop_last()).unwrap();
            assert forall|k: int| 0 <= k < ids.len() implies (#[trigger] places[k] as int)
                < hand.len() && hand[places[k] as int].id() == ids[k] by {
                if k < rest.len() {
                    assert(places[k] == rest[k]);
                    assert(ids.drop_last()[k] == ids[k]);
                }
            }
        }
    }
}

/// Different ids name cards at different places.
pub proof fn lemma_distinct_places(hand: Seq<Card>, ids: Seq<Seq<char>>)
    requires
        hand.len() <= usize::MAX,
        ids.no_duplicates(),
    ensures
        places_of(hand, ids) matches Some(places) ==> places.no_duplicates() && forall|k: int|
            0 <= k < places.len() ==> (#[trigger] places[k] as int) < hand.len(),
{
    lemma_places_of(hand, ids);
    if let Some(places) = places_of(hand, ids) {
        assert forall|a: int, b: int|
            0 <= a < places.len() && 0 <= b < places.len() && a != b implies places[a]
            != places[b] by {
            assert(hand[places[a] as int].id() == ids[a]);
            assert(hand[places[b] as int].id() == ids[b]);
        }
    }
}

/// Ids of different cards can always be played together.
pub proof fn law_distinct_ids_playable(game: GameModel, seat: usize, ids: Seq<Seq<char>>)
    requires
        (seat as int) < game.players.len(),
        game.players[seat as int].hand.len() <= usize::MAX,
        ids.no_duplicates(),
    ensures
        game.ids_playable(seat, ids),
{
    let hand = game.players[seat as int].hand;
    lemma_distinct_places(hand, ids);
    if let Some(places) = places_of(hand, ids) {
        turn::law_taking_conserves_cards(hand, places);
    }
}

/// Settling a move takes no card out of any hand and puts none into one.
proof fn lemma_settled_keeps_hands(game: GameModel, skip: bool, i: int)
    requires
        game.sound(),
        0 <= i < game.players.len(),
    ensures
        game.settled(skip).players[i].hand == game.players[i].hand,
        game.settled(skip).players[i].name == game.players[i].name,
        game.settled(skip).players.len() == game.players.len(),
{
}

/// A play of different cards that counts moves exactly those cards from the
/// player's hand to the table, and touches no other hand.
pub proof fn law_play_moves_cards(game: GameModel, seat: usize, ids: Seq<Seq<char>>)
    requires
        game.sound(),
        game.accepts_move(seat),
        game.players[seat as int].hand.len() <= usize::MAX,
        ids.no_duplicates(),
        places_of(game.players[seat as int].hand, ids) is Some,
        game.verdict_on(
            seat,
            places_of(game.players[seat as int].hand, ids).unwrap(),
        ).valid,
    ensures
        game.players[seat as int].hand.to_multiset() == game.played(
            seat,
            ids,
        ).players[seat as int].hand.to_multiset().add(
            bot::cards_at(
                game.players[seat as int].hand,
                places_of(game.players[seat as int].hand, ids).unwrap(),
            ).to_multiset(),
        ),
        forall|i: int|
            0 <= i < game.players.len() && i != seat ==> (#[trigger] game.played(
                seat,
                ids,
            ).players[i]).hand == game.players[i].hand,
{
    let hand = game.players[seat as int].hand;
    let places = places_of(hand, ids).unwrap();
    lemma_distinct_places(hand, ids);
    turn::law_taking_conserves_cards(hand, places);
    turn::lemma_cards_down_sound(game, seat, places, game.kind_at(seat, places));
    let noted = game.play_noted(seat, places);
    lemma_settled_keeps_hands(noted, true, seat as int);
    assert forall|i: int| 0 <= i < game.players.len() && i != seat implies (#[trigger] game.played(
        seat,
        ids,
    ).players[i]).hand == game.players[i].hand by {
        lemma_settled_keeps_hands(noted, true, i);
    }
}

/// Whoever's cards lie on the table is not counted among the others.
proof fn lemma_out_count_own(
    players: Seq<PlayerModel>,
    at: int,
    p: PlayerModel,
    leader: usize,
    passed: Seq<usize>,
)
    requires
        0 <= at < players.len(),
        players[at].id == leader,
        p.id == leader,
    ensures
        rules::out_count(players.update(at, p), leader, passed) == rules::out_count(
            players,
            leader,
            passed,
        ),
    decreases players.len(),
{
    let next = players.update(at, p);
    if at < players.len() - 1 {
        lemma_out_count_own(players.drop_last(), at, p, leader, passed);
        assert(next.drop_last() =~= players.drop_last().update(at, p));
    } else {
        assert(next.drop_last() =~= players.drop_last());
    }
}

impl GameModel {
    /// How many of the others take no part in the trick once the seat has put
    /// cards on the table: those who have finished, and on a table that nobody
    /// led those who are noted as having passed.
    pub open spec fn others_out(self, seat: usize) -> nat {
        rules::out_count(
            self.players,
            seat,
            if self.trick.combo_player is Some {
                Seq::empty()
            } else {
                self.trick.passed
            },
        )
    }
}

/// A play that counts lies on the table afterwards, as the player's own and
/// with its kind, whether the round goes on or not. Left out is a table at which
/// all three others are out of the trick at once: the player has then taken it.
pub proof fn law_play_lies_on_the_table(game: GameModel, seat: usize, ids: Seq<Seq<char>>)
    requires
        game.sound(),
        game.accepts_move(seat),
        game.players[seat as int].id == seat,
        places_of(game.players[seat as int].hand, ids) is Some,
        game.verdict_on(
            seat,
            places_of(game.players[seat as int].hand, ids).unwrap(),
        ).valid,
        game.others_out(seat) < 3,
    ensures
        ({
            let places = places_of(game.players[seat as int].hand, ids).unwrap();
            game.played(seat, ids).trick == game.trick.covered(
                seat,
                bot::cards_at(game.players[seat as int].hand, places),
                game.kind_at(seat, places),
            )
        }),
{
    let places = places_of(game.players[seat as int].hand, ids).unwrap();
    let noted = game.play_noted(seat, places);
    lemma_out_count_own(
        game.players,
        seat as int,
        noted.players[seat as int],
        seat,
        noted.trick.passed,
    );
    assert(noted.players =~= game.players.update(seat as int, noted.players[seat as int]));
    assert(noted.trick_winner() is None);
}

/// A play that counts moves the turn counter on by one; one that does not
/// leaves the table, the hands and the turn as they were.
pub proof fn law_play_counts_once(game: GameModel, seat: usize, ids: Seq<Seq<char>>)
    requires
        game.sound(),
        game.accepts_move(seat),
        game.turn_seq < u32::MAX,
    ensures
        ({
            let after = game.played(seat, ids);
            let counts = places_of(game.players[seat as int].hand, ids) matches Some(places)
                && game.verdict_on(seat, places).valid;
            &&& counts ==> after.turn_seq == game.turn_seq + 1
            &&& !counts ==> after == (GameModel { log: after.log, ..game })
        }),
{
    if let Some(places) = places_of(game.players[seat as int].hand, ids) {
        turn::lemma_cards_down_sound(game, seat, places, game.kind_at(seat, places));
        turn::lemma_settled_sound(game.play_noted(seat, places), true);
    }
}

/// Whoever is not at turn changes nothing, neither by playing nor by passing.
pub proof fn law_only_the_player_at_turn_moves(game: GameModel, seat: usize, ids: Seq<Seq<char>>)
    requires
        game.current_player != seat,
    ensures
        game.played(seat, ids) == game,
        game.after_pass(seat) == game,
        game.played_events(seat, ids) == Seq::<EventModel>::empty(),
        game.pass_events(seat) == Seq::<EventModel>::empty(),
{
}

/// What is played or passed for a player whose time has run out always counts:
/// the turn moves on.
pub proof fn law_idle_move_counts(game: GameModel, seat: usize)
    requires
        game.sound(),
        game.accepts_move(seat),
        game.turn_seq < u32::MAX,
        game.players[seat as int].hand.len() <= usize::MAX,
        game.players[seat as int].hand.len() > 0,
        game.trick.combo_player != Some(seat),
    ensures
        match turn::idle_choice(game, seat) {
            Some(c) => game.ids_playable(seat, seq![c.id()]) && game.played(
                seat,
                seq![c.id()],
            ).turn_seq == game.turn_seq + 1,
            None => game.after_pass(seat).turn_seq == game.turn_seq + 1,
        },
{
    let hand = game.players[seat as int].hand;
    turn::law_idle_choice(hand, bot::table_of(game), hand.len() as int);
    match turn::idle_choice(game, seat) {
        Some(c) => {
            let ids = seq![c.id()];
            law_distinct_ids_playable(game, seat, ids);
            lemma_place_of_id(hand, c.id(), 0);
            let k = choose|k: int| 0 <= k < hand.len() && hand[k] == c;
            assert(hand[k].id() == c.id());
            let at = place_of_id(hand, c.id(), 0).unwrap();
            card::law_card_id_injective(hand[at as int], c);
            assert(ids.drop_last() =~= Seq::<Seq<char>>::empty());
            assert(places_of(hand, ids.drop_last()) == Some(Seq::<usize>::empty()));
            let places = Seq::<usize>::empty().push(at);
            assert(places_of(hand, ids) == Some(places));
            assert(bot::cards_at(hand, places) =~= seq![c]);
            law_play_counts_once(game, seat, ids);
        },
        None => {
            if game.trick.combo_player is None {
                turn::law_idle_lead_never_passes(game, seat);
            }
            turn::lemma_settled_sound(game.pass_noted(seat), true);
        },
    }
}

/// Whatever a player tries, the game stays sound: a full table with somebody of
/// it at turn, and room for the round to end.
pub proof fn law_moves_keep_game_sound(game: GameModel, seat: usize, ids: Seq<Seq<char>>)
    requires
        game.sound(),
    ensures
        game.played(seat, ids).sound(),
        game.after_pass(seat).sound(),
        game.played(seat, ids).players.len() == game.players.len(),
        game.after_pass(seat).players.len() == game.players.len(),
{
    rules::lemma_first_unfinished(game, 0);
    if game.accepts_move(seat) {
        if let Some(places) = places_of(game.players[seat as int].hand, ids) {
            turn::lemma_cards_down_sound(game, seat, places, game.kind_at(seat, places));
            turn::lemma_settled_sound(game.play_noted(seat, places), true);
        }
        turn::lemma_settled_sound(game.pass_noted(seat), true);
    }
}

} // verus!
