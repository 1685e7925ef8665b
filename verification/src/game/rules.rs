//! The rules: what may be played, when a trick is over, when a round is over
//! and what it is worth.
use crate::game::card;
use crate::game::card::Card;
use crate::game::card::Rank;
use crate::game::combo;
use crate::game::combo::Combo;
use crate::game::combo::ComboModel;
use crate::game::combo::ComboType;
use crate::game::sorting;
use crate::game::state;
use crate::game::state::GameModel;
use crate::game::state::GamePhase;
use crate::game::state::GameState;
use crate::game::state::PlayerModel;
use crate::game::state::ThreeDiscardModel;
use crate::game::state::ThreeDiscardState;
use crate::game::state::TrickModel;
use crate::game::state::TrickState;
use crate::text;
use vstd::prelude::*;
use vstd::relations::*;
use vstd::seq_lib::*;
use vstd::string::*;

pub use crate::game::turn::idle_auto_move;
pub use crate::game::turn::process_bot_turns;
pub use crate::game::turn::process_one_bot_turn;

verus! {

// ---------------------------------------------------------------------------
// Judging a play
// ---------------------------------------------------------------------------

/// The verdict on a play.
#[derive(Debug)]
pub struct ValidationResult {
    pub valid: bool,
    pub error: String,
    pub combo_name: String,
    pub combo: Option<Combo>,
}

#[verifier::ext_equal]
pub struct ValidationModel {
    pub valid: bool,
    pub error: Seq<char>,
    pub combo_name: Seq<char>,
    pub combo: Option<ComboModel>,
}

/// What an optional combination holds.
pub open spec fn opt_combo(c: Option<Combo>) -> Option<ComboModel> {
    match c {
        Some(c) => Some(c@),
        None => None,
    }
}

/// What an optional reference to a combination holds.
pub open spec fn opt_combo_ref(c: Option<&Combo>) -> Option<ComboModel> {
    match c {
        Some(c) => Some(c@),
        None => None,
    }
}

impl View for ValidationResult {
    type V = ValidationModel;

    open spec fn view(&self) -> ValidationModel {
        ValidationModel {
            valid: self.valid,
            error: self.error@,
            combo_name: self.combo_name@,
            combo: opt_combo(self.combo),
        }
    }
}

impl ValidationModel {
    /// The cards may be played as this combination.
    pub open spec fn accepted(c: ComboModel) -> ValidationModel {
        ValidationModel {
            valid: true,
            error: Seq::empty(),
            combo_name: c.combo_type.text(),
            combo: Some(c),
        }
    }

    /// The cards make a combination, but it may not be played now.
    pub open spec fn refused(c: ComboModel, error: Seq<char>) -> ValidationModel {
        ValidationModel {
            valid: false,
            error,
            combo_name: c.combo_type.text(),
            combo: Some(c),
        }
    }

    /// The cards are nothing that could be played.
    pub open spec fn rejected(error: Seq<char>) -> ValidationModel {
        ValidationModel { valid: false, error, combo_name: Seq::empty(), combo: None }
    }
}

/// Is this a single two, the one thing besides a bomb that a bomb answers?
pub open spec fn is_single_two(c: ComboModel) -> bool {
    c.combo_type == ComboType::Single && c.cards.len() > 0 && c.cards[0].rank == Rank::Two
}

/// What is said of a combination of another kind or size than the table's.
pub open spec fn must_match_text(table: ComboModel) -> Seq<char> {
    "Must match: "@ + table.combo_type.text() + " ("@ + text::decimal(table.cards.len())
        + " cards)."@
}

/// What is said of a combination that is not above the table's.
pub open spec fn cannot_beat_text(table: ComboModel) -> Seq<char> {
    "Cannot beat: "@ + text::joined(card::card_texts(table.cards), " "@)
}

/// The verdict on playing `cards` on a table that shows `table`. A bomb never
/// leads and answers a single two or a lower bomb only; anything else has to
/// match the table's kind and size and to be above it.
pub open spec fn verdict(cards: Seq<Card>, table: Option<ComboModel>) -> ValidationModel {
    if cards.len() == 0 {
        ValidationModel::rejected("No cards selected"@)
    } else {
        match combo::combo_of(cards) {
            None => ValidationModel::rejected("Invalid combo"@),
            Some(c) => match table {
                None => if c.combo_type == ComboType::Bomb {
                    ValidationModel::rejected("Invalid combo"@)
                } else {
                    ValidationModel::accepted(c)
                },
                Some(t) => if c.combo_type == ComboType::Bomb && t.combo_type != ComboType::Bomb {
                    if is_single_two(t) {
                        ValidationModel::accepted(c)
                    } else {
                        ValidationModel::rejected("Invalid combo"@)
                    }
                } else if c.cards.len() != t.cards.len() || c.combo_type != t.combo_type {
                    ValidationModel::refused(c, must_match_text(t))
                } else if c.above(t) matches Some(d) && d > 0 {
                    ValidationModel::accepted(c)
                } else {
                    ValidationModel::refused(c, cannot_beat_text(t))
                },
            },
        }
    }
}

fn rejection(error: &str) -> (r: ValidationResult)
    ensures
        r@ == ValidationModel::rejected(error@),
{
    ValidationResult {
        valid: false,
        error: error.to_owned(),
        combo_name: String::new(),
        combo: None,
    }
}

fn refusal(combo: Combo, error: String) -> (r: ValidationResult)
    ensures
        r@ == ValidationModel::refused(combo@, error@),
{
    ValidationResult {
        valid: false,
        error,
        combo_name: combo.combo_type.to_string(),
        combo: Some(combo),
    }
}

fn acceptance(combo: Combo) -> (r: ValidationResult)
    ensures
        r@ == ValidationModel::accepted(combo@),
{
    ValidationResult {
        valid: true,
        error: String::new(),
        combo_name: combo.combo_type.to_string(),
        combo: Some(combo),
    }
}

/// May the cards be played on a table that shows `table_combo`?
pub fn validate_play(cards: &[Card], table_combo: Option<&Combo>) -> (r: ValidationResult)
    ensures
        r@ == verdict(cards@, opt_combo_ref(table_combo)),
{
    if cards.len() == 0 {
        return rejection("No cards selected");
    }
    let combo = match combo::detect_combo(cards) {
        Some(c) => c,
        None => {
            return rejection("Invalid combo");
        },
    };
    proof {
        card::lemma_sorted_cards(cards@);
    }
    match table_combo {
        None => {
            if combo.combo_type == ComboType::Bomb {
                return rejection("Invalid combo");
            }
        },
        Some(tc) => {
            if combo.combo_type == ComboType::Bomb && tc.combo_type != ComboType::Bomb {
                if tc.combo_type == ComboType::Single && tc.cards.len() > 0 && tc.cards[0].rank
                    == Rank::Two {
                    return acceptance(combo);
                }
                return rejection("Invalid combo");
            }
            if combo.cards.len() != tc.cards.len() || combo.combo_type != tc.combo_type {
                let mut error = "Must match: ".to_owned();
                let name = tc.combo_type.to_string();
                error.append(name.as_str());
                error.append(" (");
                let count = text::decimal_text(tc.cards.len() as u64);
                error.append(count.as_str());
                error.append(" cards).");
                return refusal(combo, error);
            }
            let beats = match combo::compare_combos(&combo, tc) {
                Some(d) => d > 0,
                None => false,
            };
            if !beats {
                let mut error = "Cannot beat: ".to_owned();
                let shown = card::labels(&tc.cards);
                let list = text::join_texts(&shown, " ");
                error.append(list.as_str());
                return refusal(combo, error);
            }
        },
    }
    acceptance(combo)
}

/// Whatever is accepted on a combination of the same kind is above it.
pub proof fn law_accepted_play_is_higher(cards: Seq<Card>, table: ComboModel)
    requires
        verdict(cards, Some(table)).valid,
        combo::combo_of(cards) matches Some(c) && c.combo_type == table.combo_type,
    ensures
        combo::combo_of(cards).unwrap().above(table) matches Some(d) && d > 0,
        combo::combo_of(cards).unwrap().cards.len() == table.cards.len(),
{
}

/// A bomb never leads, and answers nothing but a single two or a lower bomb.
pub proof fn law_bomb_only_reacts(cards: Seq<Card>, table: Option<ComboModel>)
    requires
        combo::combo_type_of(cards) == Some(ComboType::Bomb),
    ensures
        verdict(cards, table).valid <==> {
            &&& table matches Some(t)
            &&& {
                ||| is_single_two(t)
                ||| t.combo_type == ComboType::Bomb && t.cards.len() == 4
                    && combo::combo_of(cards).unwrap().above(t).unwrap() > 0
            }
        },
{
    card::lemma_sorted_cards(cards);
}

/// A play that is not valid comes with a reason, a valid one with its
/// combination.
pub proof fn law_verdict_explains(cards: Seq<Card>, table: Option<ComboModel>)
    ensures
        verdict(cards, table).valid ==> verdict(cards, table).combo == combo::combo_of(cards)
            && combo::combo_of(cards) is Some,
        !verdict(cards, table).valid ==> verdict(cards, table).error.len() > 0,
{
    reveal_strlit("No cards selected");
    reveal_strlit("Invalid combo");
    reveal_strlit("Must match: ");
    reveal_strlit("Cannot beat: ");
}

// ---------------------------------------------------------------------------
// Seats and turns
// ---------------------------------------------------------------------------

/// The seat after `seat`, going round the table of four.
pub open spec fn seat_after(seat: usize) -> usize {
    ((seat + 1) % 4) as usize
}

/// The points of the player who comes last.
pub const LAST_SCORE: i32 = -15;

/// The points for finishing in a place.
pub open spec fn position_score(pos: nat) -> i32 {
    if pos == 1 {
        10
    } else if pos == 2 {
        5
    } else if pos == 3 {
        0
    } else {
        LAST_SCORE
    }
}

impl GameModel {
    /// All four seats are taken, every player has a score, and one of them is
    /// at turn.
    pub open spec fn seated(self) -> bool {
        &&& self.players.len() >= 4
        &&& self.scores.len() >= self.players.len()
        &&& (self.current_player as int) < self.players.len()
    }

    /// The round can be counted, and each seat's score goes on top of its total
    /// without leaving the range of the type.
    pub open spec fn sums_fit(self) -> bool {
        &&& self.round < usize::MAX
        &&& forall|i: int|
            0 <= i < self.total_scores.len() && i < self.scores.len() ==> i32::MIN
                <= #[trigger] self.total_scores[i] + self.scores[i] <= i32::MAX
    }

    /// The sums fit now and with whatever score the round still brings a seat.
    pub open spec fn headroom(self) -> bool {
        &&& self.sums_fit()
        &&& forall|i: int|
            0 <= i < self.total_scores.len() ==> i32::MIN <= #[trigger] self.total_scores[i]
                + LAST_SCORE && self.total_scores[i] + 10
                <= i32::MAX
    }

    /// The first seat from `seat` on whose player still has cards, looking at
    /// no more than `steps` seats.
    pub open spec fn active_from(self, seat: usize, steps: nat) -> usize
        decreases steps,
    {
        if steps == 0 || !self.players[seat as int].finished {
            seat
        } else {
            self.active_from(seat_after(seat), (steps - 1) as nat)
        }
    }

    /// With the turn moved on past finished players.
    pub open spec fn skipped(self) -> GameModel {
        GameModel { current_player: self.active_from(self.current_player, 4), ..self }
    }

    /// The next turn.
    pub open spec fn bumped(self) -> GameModel {
        GameModel { turn_seq: (self.turn_seq + 1) as u32, ..self }
    }
}

/// Scores that a round brings leave room for its end.
pub proof fn lemma_rescored_headroom(game: GameModel, next: GameModel)
    requires
        game.headroom(),
        next.round == game.round,
        forall|i: int|
            0 <= i < next.total_scores.len() ==> #[trigger] next.total_scores[i] == if i
                < game.total_scores.len() {
                game.total_scores[i]
            } else {
                0
            },
        forall|i: int|
            0 <= i < next.scores.len() ==> LAST_SCORE <= #[trigger] next.scores[i] <= 10 || (i
                < game.scores.len() && next.scores[i] == game.scores[i]),
    ensures
        next.headroom(),
{
    assert forall|i: int|
        0 <= i < next.total_scores.len() && i < next.scores.len() implies i32::MIN
        <= #[trigger] next.total_scores[i] + next.scores[i] <= i32::MAX by {
        assert(LAST_SCORE <= next.scores[i] <= 10 || next.scores[i] == game.scores[i]);
        if i < game.total_scores.len() {
            assert(i32::MIN <= game.total_scores[i] + LAST_SCORE);
        }
    }
}

/// As long as anyone still has cards, skipping ends with a player who does.
pub proof fn law_skip_finds_active(game: GameModel)
    requires
        game.players.len() >= 4,
        (game.current_player as int) < game.players.len(),
        exists|i: int| 0 <= i < 4 && !(#[trigger] game.players[i]).finished,
    ensures
        !game.players[game.skipped().current_player as int].finished,
        (game.skipped().current_player as int) < game.players.len(),
{
    reveal_with_fuel(GameModel::active_from, 5);
    let i = choose|i: int| 0 <= i < 4 && !(#[trigger] game.players[i]).finished;
    let s0 = game.current_player;
    let s1 = seat_after(s0);
    let s2 = seat_after(s1);
    let s3 = seat_after(s2);
    let s4 = seat_after(s3);
    assert(i == s1 || i == s2 || i == s3 || i == s4);
}

/// Skipping a second time changes nothing.
pub proof fn law_skip_idempotent(game: GameModel)
    requires
        game.players.len() >= 4,
        (game.current_player as int) < game.players.len(),
        exists|i: int| 0 <= i < 4 && !(#[trigger] game.players[i]).finished,
    ensures
        game.skipped().skipped() == game.skipped(),
{
    law_skip_finds_active(game);
}

/// Moves the turn on to a player who still has cards. Where nobody at the
/// table has any, the search ends after one round.
pub fn skip_finished(state: &mut GameState)
    requires
        old(state)@.players.len() >= 4,
        (old(state)@.current_player as int) < old(state)@.players.len(),
    ensures
        final(state)@ == old(state)@.skipped(),
        (final(state)@.current_player as int) < final(state)@.players.len(),
{
    let mut seat: usize = state.current_player;
    let mut steps: usize = 4;
    while steps > 0 && state.players[seat].finished
        invariant
            steps <= 4,
            seat < state.players.len(),
            state.players.len() >= 4,
            *state == *old(state),
            state@.active_from(seat, steps as nat) == state@.active_from(state.current_player, 4),
        decreases steps,
    {
        assert(state@.players[seat as int] == state.players@[seat as int]@);
        seat = (seat % 4 + 1) % 4;
        steps -= 1;
    }
    assert(state@.players[seat as int] == state.players@[seat as int]@);
    state.current_player = seat;
    assert(state@ =~= old(state)@.skipped());
}

/// The seat after the one at turn.
pub fn next_player(state: &GameState) -> (r: usize)
    requires
        state.current_player < usize::MAX,
    ensures
        r == seat_after(state@.current_player),
{
    (state.current_player + 1) % 4
}

/// Has the player at this seat run out of cards?
pub fn player_finished(state: &GameState, player_id: usize) -> (r: bool)
    requires
        player_id < state@.players.len(),
    ensures
        r == state@.players[player_id as int].finished,
{
    state.players[player_id].finished
}

// ---------------------------------------------------------------------------
// Tricks
// ---------------------------------------------------------------------------

/// How many of the players other than `leader` have finished or passed.
pub open spec fn out_count(players: Seq<PlayerModel>, leader: usize, passed: Seq<usize>) -> nat
    decreases players.len(),
{
    if players.len() == 0 {
        0
    } else {
        let p = players.last();
        out_count(players.drop_last(), leader, passed) + if p.id != leader && (p.finished
            || passed.contains(p.id)) {
            1nat
        } else {
            0nat
        }
    }
}

impl GameModel {
    /// How many players take no further part in the trick.
    pub open spec fn bystanders(self) -> nat {
        match self.trick.combo_player {
            Some(leader) => out_count(self.players, leader, self.trick.passed),
            None => 0,
        }
    }

    /// Who takes the trick, if it is over.
    pub open spec fn trick_winner(self) -> Option<usize> {
        if self.bystanders() >= 3 {
            self.trick.combo_player
        } else {
            None
        }
    }

    /// With a fresh trick that `winner` leads.
    pub open spec fn led_by(self, winner: usize) -> GameModel {
        GameModel { trick: TrickModel::fresh(), current_player: winner, ..self }
    }
}

/// Does the list of seats hold this seat?
pub fn has_seat(seats: &Vec<usize>, seat: usize) -> (r: bool)
    ensures
        r == seats@.contains(seat),
{
    let mut i: usize = 0;
    while i < seats.len()
        invariant
            i <= seats.len(),
            forall|k: int| 0 <= k < i ==> seats@[k] != seat,
        decreases seats.len() - i,
    {
        if seats[i] == seat {
            assert(seats@[i as int] == seat);
            return true;
        }
        i += 1;
    }
    false
}

/// How many players take no further part in the trick: all but the one whose
/// cards lie on the table who have finished or passed.
pub fn non_participants(state: &GameState) -> (r: usize)
    ensures
        r == state@.bystanders(),
{
    match state.trick.combo_player {
        None => 0,
        Some(leader) => {
            let mut n: usize = 0;
            let mut i: usize = 0;
            let ghost all = state@.players;
            assert(all.take(0) =~= Seq::<PlayerModel>::empty());
            while i < state.players.len()
                invariant
                    i <= state.players.len(),
                    n <= i,
                    all == state@.players,
                    n == out_count(all.take(i as int), leader, state@.trick.passed),
                decreases state.players.len() - i,
            {
                let p = &state.players[i];
                if p.id != leader && (p.finished || has_seat(&state.trick.passed, p.id)) {
                    n += 1;
                }
                proof {
                    let t = all.take(i + 1);
                    assert(t.drop_last() =~= all.take(i as int));
                    assert(t.last() == state.players@[i as int]@);
                }
                i += 1;
            }
            assert(all.take(all.len() as int) =~= all);
            n
        },
    }
}

/// Who takes the trick, if everybody else is out of it.
pub fn check_trick_complete(state: &GameState) -> (r: Option<usize>)
    ensures
        r == state@.trick_winner(),
{
    if non_participants(state) >= 3 {
        state.trick.combo_player
    } else {
        None
    }
}

/// Clears the table; the winner leads the next trick.
pub fn resolve_trick(state: &mut GameState, winner_id: usize)
    ensures
        final(state)@ == old(state)@.led_by(winner_id),
{
    state.trick = TrickState::new();
    state.current_player = winner_id;
    assert(state@ =~= old(state)@.led_by(winner_id));
}

// ---------------------------------------------------------------------------
// The end of a round
// ---------------------------------------------------------------------------

/// The totals with a round's scores on top.
pub open spec fn with_scores(totals: Seq<i32>, scores: Seq<i32>) -> Seq<i32> {
    Seq::new(
        totals.len(),
        |i: int|
            if i < scores.len() {
                (totals[i] + scores[i]) as i32
            } else {
                totals[i]
            },
    )
}

/// The lowest seat, from `from` on, whose total has reached the target.
pub open spec fn first_reaching(totals: Seq<i32>, target: u32, from: int) -> Option<usize>
    decreases totals.len() - from,
{
    if from >= totals.len() {
        None
    } else if totals[from] >= target {
        Some(from as usize)
    } else {
        first_reaching(totals, target, from + 1)
    }
}

impl GameModel {
    /// The lowest of the four seats, from `from` on, whose player still has
    /// cards.
    pub open spec fn first_unfinished(self, from: int) -> Option<int>
        decreases 4 - from,
    {
        if from >= 4 {
            None
        } else if !self.players[from].finished {
            Some(from)
        } else {
            self.first_unfinished(from + 1)
        }
    }

    /// With the round over and its scores on top of the totals. The match is
    /// won by the lowest seat whose total has reached the target, unless it
    /// was won before.
    pub open spec fn round_over(self) -> GameModel {
        let totals = with_scores(
            state::padded(self.total_scores, self.players.len()),
            self.scores,
        );
        GameModel {
            phase: GamePhase::GameOver,
            total_scores: totals,
            round: (self.round + 1) as usize,
            game_winner: if self.game_winner is Some {
                self.game_winner
            } else {
                first_reaching(totals, self.winning_point, 0)
            },
            ..self
        }
    }

    /// Is the round to be closed? Three have finished and it is still open.
    pub open spec fn ripe(self) -> bool {
        self.phase != GamePhase::GameOver && self.finished_order.len() >= 3
    }

    /// With the player who is left scored and placed last.
    pub open spec fn last_placed(self) -> GameModel {
        match self.first_unfinished(0) {
            Some(i) => GameModel {
                scores: self.scores.update(i, LAST_SCORE),
                finished_order: self.finished_order.push(i as usize),
                ..self
            },
            None => self,
        }
    }

    /// With the round closed, if it is ripe for it.
    pub open spec fn finalized(self) -> GameModel {
        if self.ripe() {
            self.last_placed().round_over()
        } else {
            self
        }
    }
}

/// Placing the last player leaves room for the round's end.
pub proof fn lemma_last_placed_fits(game: GameModel)
    requires
        game.phase != GamePhase::GameOver ==> game.headroom(),
        game.scores.len() >= 4,
    ensures
        game.ripe() ==> game.last_placed().sums_fit(),
{
    if game.ripe() {
        lemma_first_unfinished(game, 0);
        lemma_rescored_headroom(game, game.last_placed());
    }
}

/// The lowest of the four seats whose player still has cards.
fn find_unfinished(state: &GameState) -> (r: Option<usize>)
    requires
        state@.players.len() >= 4,
    ensures
        r matches Some(i) ==> i < 4 && state@.first_unfinished(0) == Some(i as int),
        r is None ==> state@.first_unfinished(0) is None,
{
    let mut i: usize = 0;
    while i < 4
        invariant
            i <= 4,
            state@.players.len() >= 4,
            state@.first_unfinished(0) == state@.first_unfinished(i as int),
        decreases 4 - i,
    {
        assert(state@.players[i as int] == state.players@[i as int]@);
        if !state.players[i].finished {
            return Some(i);
        }
        i += 1;
    }
    None
}

/// Closes the round: scores on top of the totals, the round counted, the match
/// won where a total has reached the target.
fn close_round(state: &mut GameState)
    requires
        old(state)@.sums_fit(),
    ensures
        final(state)@ == old(state)@.round_over(),
{
    state.ensure_total_scores();
    let ghost totals = state@.total_scores;
    let ghost mid = state@;
    let mut i: usize = 0;
    while i < state.total_scores.len()
        invariant
            i <= state.total_scores.len(),
            state.total_scores.len() == totals.len(),
            old(state)@.sums_fit(),
            totals == state::padded(old(state)@.total_scores, old(state)@.players.len()),
            state@ == (GameModel { total_scores: state@.total_scores, ..old(state)@ }),
            forall|k: int|
                0 <= k < i ==> #[trigger] state.total_scores@[k] == with_scores(
                    totals,
                    old(state)@.scores,
                )[k],
            forall|k: int|
                i <= k < totals.len() ==> #[trigger] state.total_scores@[k] == totals[k],
        decreases totals.len() - i,
    {
        if i < state.scores.len() {
            proof {
                let own = old(state)@.total_scores;
                if i < own.len() {
                    assert(i32::MIN <= own[i as int] + state@.scores[i as int] <= i32::MAX);
                }
                assert(totals[i as int] == if i < own.len() {
                    own[i as int]
                } else {
                    0
                });
            }
            let sum: i32 = state.total_scores[i] + state.scores[i];
            state.total_scores.set(i, sum);
        }
        i += 1;
    }
    assert(state@.total_scores =~= with_scores(totals, old(state)@.scores));
    state.phase = GamePhase::GameOver;
    state.round = state.round + 1;
    if state.game_winner.is_none() {
        state.game_winner = find_reaching(&state.total_scores, state.winning_point);
    }
    assert(state@ =~= old(state)@.round_over());
}

/// The lowest seat whose total has reached the target.
fn find_reaching(totals: &Vec<i32>, target: u32) -> (r: Option<usize>)
    ensures
        r == first_reaching(totals@, target, 0),
{
    let mut i: usize = 0;
    while i < totals.len()
        invariant
            i <= totals.len(),
            first_reaching(totals@, target, 0) == first_reaching(totals@, target, i as int),
        decreases totals.len() - i,
    {
        if totals[i] as i64 >= target as i64 {
            return Some(i);
        }
        i += 1;
    }
    None
}

/// Closes the round once three players have finished: the one who is left is
/// placed last, the scores go on top of the totals and the round is counted.
/// Says whether it did; a round is closed only once.
pub fn finalize_game(state: &mut GameState) -> (r: bool)
    requires
        old(state)@.ripe() ==> old(state)@.players.len() >= 4 && old(state)@.scores.len() >= 4
            && old(state)@.last_placed().sums_fit(),
    ensures
        r == old(state)@.ripe(),
        final(state)@ == old(state)@.finalized(),
{
    if state.phase == GamePhase::GameOver || state.finished_order.len() < 3 {
        return false;
    }
    let found = find_unfinished(state);
    if let Some(i) = found {
        state.scores.set(i, LAST_SCORE);
        state.finished_order.push(i);
    }
    assert(state@ =~= old(state)@.last_placed());
    close_round(state);
    true
}

impl GameModel {
    /// With the game marked as over and the player who is left scored, once
    /// three have finished.
    pub open spec fn ended(self) -> GameModel {
        if self.finished_order.len() < 3 {
            self
        } else {
            GameModel {
                phase: GamePhase::GameOver,
                scores: match self.first_unfinished(0) {
                    Some(i) => self.scores.update(i, LAST_SCORE),
                    None => self.scores,
                },
                ..self
            }
        }
    }
}

/// Marks the game as over once three players have finished, and scores the one
/// who is left.
pub fn end_game(state: &mut GameState) -> (r: bool)
    requires
        old(state)@.finished_order.len() >= 3 ==> old(state)@.players.len() >= 4
            && old(state)@.scores.len() >= 4,
    ensures
        r == (old(state)@.finished_order.len() >= 3),
        final(state)@ == old(state)@.ended(),
        !r ==> final(state)@ == old(state)@,
        r ==> final(state)@ == (GameModel {
            phase: GamePhase::GameOver,
            scores: match old(state)@.first_unfinished(0) {
                Some(i) => old(state)@.scores.update(i, LAST_SCORE),
                None => old(state)@.scores,
            },
            ..old(state)@
        }),
{
    if state.finished_order.len() < 3 {
        return false;
    }
    let found = find_unfinished(state);
    if let Some(i) = found {
        state.scores.set(i, LAST_SCORE);
    }
    state.phase = GamePhase::GameOver;
    assert(state@ =~= (GameModel {
        phase: GamePhase::GameOver,
        scores: match old(state)@.first_unfinished(0) {
            Some(i) => old(state)@.scores.update(i, LAST_SCORE),
            None => old(state)@.scores,
        },
        ..old(state)@
    }));
    true
}

pub proof fn lemma_first_unfinished(game: GameModel, from: int)
    requires
        0 <= from,
    ensures
        game.first_unfinished(from) matches Some(i) ==> from <= i < 4
            && !game.players[i].finished,
    decreases 4 - from,
{
    if from < 4 {
        lemma_first_unfinished(game, from + 1);
    }
}

/// Closing a round twice is the same as closing it once: nothing is counted
/// double.
pub proof fn law_finalize_once(game: GameModel)
    ensures
        game.finalized().finalized() == game.finalized(),
        game.ripe() ==> !game.finalized().ripe(),
{
}

/// A match that has been won stays won by the same seat.
pub proof fn law_winner_is_final(game: GameModel)
    requires
        game.game_winner is Some,
    ensures
        game.finalized().game_winner == game.game_winner,
{
}

/// Closing a round adds each seat's score to its total and moves the round
/// counter on by one.
pub proof fn law_totals_accumulate(game: GameModel, seat: int)
    requires
        game.ripe(),
        game.last_placed().sums_fit(),
        game.players.len() >= 4,
        game.scores.len() >= game.players.len(),
        0 <= seat < game.players.len(),
    ensures
        game.finalized().round == game.round + 1,
        game.finalized().phase == GamePhase::GameOver,
        game.finalized().total_scores[seat] == game.finalized().scores[seat] + (if seat
            < game.total_scores.len() {
            game.total_scores[seat] as int
        } else {
            0
        }),
{
    let placed = game.last_placed();
    lemma_first_unfinished(game, 0);
    let totals = state::padded(placed.total_scores, placed.players.len());
    if seat < game.total_scores.len() {
        assert(totals[seat] == game.total_scores[seat]);
        assert(i32::MIN <= placed.total_scores[seat] + placed.scores[seat] <= i32::MAX);
    } else {
        assert(totals[seat] == 0);
    }
}

// ---------------------------------------------------------------------------
// The end of a round by a bomb
// ---------------------------------------------------------------------------

/// The last seat in `played`, up to index `n`, that is at the table and not the
/// bomber's.
pub open spec fn last_other(played: Seq<usize>, bomber: usize, n: int) -> Option<usize>
    decreases n,
{
    if n <= 0 {
        None
    } else if played[n - 1] != bomber && played[n - 1] < 4 {
        Some(played[n - 1])
    } else {
        last_other(played, bomber, n - 1)
    }
}

/// The lowest seat, from `from` on, that is neither of the two.
pub open spec fn seat_besides(a: usize, b: usize, from: usize) -> usize {
    if from != a && from != b {
        from
    } else if from + 1 != a && from + 1 != b {
        (from + 1) as usize
    } else {
        (from + 2) as usize
    }
}

/// First the bomber, last the victim, between them the other two by seat.
pub open spec fn bomb_order(bomber: usize, victim: usize) -> Seq<usize> {
    let third = seat_besides(bomber, victim, 0);
    let fourth = seat_besides(bomber, victim, (third + 1) as usize);
    seq![bomber, third, fourth, victim]
}

/// The scores after a bomb: 10 for the bomber, -15 for the victim, nothing for
/// the other two.
pub open spec fn bomb_scores(scores: Seq<i32>, bomber: usize, victim: usize) -> Seq<i32> {
    Seq::new(
        scores.len(),
        |i: int|
            if i >= 4 {
                scores[i]
            } else if i == bomber {
                10
            } else if i == victim {
                LAST_SCORE
            } else {
                0
            },
    )
}

/// With the four players at the table marked as finished.
pub open spec fn all_done(players: Seq<PlayerModel>) -> Seq<PlayerModel> {
    Seq::new(
        players.len(),
        |i: int|
            if i < 4 {
                PlayerModel { finished: true, ..players[i] }
            } else {
                players[i]
            },
    )
}

impl GameModel {
    /// Bomber and victim, where the trick is a bomb that ends the round: the
    /// victim is the last other player whose cards the trick has covered.
    pub open spec fn bomb_parties(self) -> Option<(usize, usize)> {
        if self.phase == GamePhase::GameOver || self.trick.combo_type != Some(ComboType::Bomb) {
            None
        } else {
            match self.trick.combo_player {
                Some(bomber) if bomber < 4 => match last_other(
                    self.trick.played,
                    bomber,
                    self.trick.played.len() as int,
                ) {
                    Some(victim) => Some((bomber, victim)),
                    None => None,
                },
                _ => None,
            }
        }
    }

    /// With the round ended by the bomb on the table.
    pub open spec fn bombed(self) -> GameModel {
        match self.bomb_parties() {
            Some((bomber, victim)) => (GameModel {
                players: all_done(self.players),
                scores: bomb_scores(self.scores, bomber, victim),
                finished_order: bomb_order(bomber, victim),
                ..self
            }).round_over(),
            None => self,
        }
    }
}

proof fn lemma_last_other(played: Seq<usize>, bomber: usize, n: int)
    requires
        n <= played.len(),
    ensures
        last_other(played, bomber, n) matches Some(v) ==> v != bomber && v < 4,
    decreases n,
{
    if n > 0 {
        lemma_last_other(played, bomber, n - 1);
    }
}

/// A bomb places every seat of the table exactly once, the bomber first and
/// the victim last, and its scores add up to -5.
pub proof fn law_bomb_places_everyone(game: GameModel)
    requires
        game.bomb_parties() is Some,
        game.scores.len() >= 4,
    ensures
        game.bombed().finished_order.len() == 4,
        game.bombed().finished_order.no_duplicates(),
        forall|i: int| 0 <= i < 4 ==> #[trigger] game.bombed().finished_order[i] < 4,
        game.bombed().finished_order[0] == game.bomb_parties().unwrap().0,
        game.bombed().finished_order[3] == game.bomb_parties().unwrap().1,
        game.bombed().scores[0] + game.bombed().scores[1] + game.bombed().scores[2]
            + game.bombed().scores[3] == -5,
        game.bombed().phase == GamePhase::GameOver,
{
    let bomber = game.bomb_parties().unwrap().0;
    lemma_last_other(game.trick.played, bomber, game.trick.played.len() as int);
}

/// The last seat in `played` that is at the table and not the bomber's.
fn find_last_other(played: &Vec<usize>, bomber: usize) -> (r: Option<usize>)
    ensures
        r == last_other(played@, bomber, played@.len() as int),
        r matches Some(v) ==> v != bomber && v < 4,
{
    let mut n: usize = played.len();
    while n > 0
        invariant
            n <= played.len(),
            last_other(played@, bomber, n as int) == last_other(
                played@,
                bomber,
                played@.len() as int,
            ),
        decreases n,
    {
        if played[n - 1] != bomber && played[n - 1] < 4 {
            return Some(played[n - 1]);
        }
        n -= 1;
    }
    None
}

/// A completed bomb ends the round at once: the bomber is first, the player
/// whose cards the bomb covered is last, the others score nothing. Says
/// whether it did.
pub fn maybe_end_game_by_bomb(state: &mut GameState) -> (r: bool)
    requires
        old(state)@.bomb_parties() is Some ==> {
            &&& old(state)@.players.len() >= 4
            &&& old(state)@.scores.len() >= 4
            &&& old(state)@.headroom()
        },
    ensures
        r == (old(state)@.bomb_parties() is Some),
        final(state)@ == old(state)@.bombed(),
{
    if state.phase == GamePhase::GameOver {
        return false;
    }
    match state.trick.combo_type {
        Some(ComboType::Bomb) => {},
        _ => {
            return false;
        },
    }
    let bomber: usize = match state.trick.combo_player {
        Some(b) => b,
        None => {
            return false;
        },
    };
    if bomber >= 4 {
        return false;
    }
    let victim: usize = match find_last_other(&state.trick.played, bomber) {
        Some(v) => v,
        None => {
            return false;
        },
    };
    let ghost before = state@;
    assert(before.bomb_parties() == Some((bomber, victim)));
    let mut order: Vec<usize> = Vec::new();
    order.push(bomber);
    let mut i: usize = 0;
    while i < 4
        invariant
            i <= 4,
            bomber < 4,
            victim < 4,
            bomber != victim,
            before.players.len() >= 4,
            before.scores.len() >= 4,
            state@ == (GameModel { players: state@.players, scores: state@.scores, ..before }),
            state.players.len() == before.players.len(),
            state.scores.len() == before.scores.len(),
            forall|k: int|
                0 <= k < state.players.len() ==> #[trigger] state@.players[k] == if k < i {
                    (PlayerModel { finished: true, ..before.players[k] })
                } else {
                    before.players[k]
                },
            forall|k: int|
                0 <= k < i ==> #[trigger] state@.scores[k] == bomb_scores(
                    before.scores,
                    bomber,
                    victim,
                )[k],
            forall|k: int|
                i <= k < state.scores.len() ==> #[trigger] state@.scores[k] == before.scores[k],
            order.len() > 0,
            order@ == bomb_order(bomber, victim).take(order.len() as int),
            order.len() == 1 + i - (if bomber < i {
                1int
            } else {
                0
            }) - (if victim < i {
                1int
            } else {
                0
            }),
        decreases 4 - i,
    {
        let ghost prev = state@;
        state.players[i].finished = true;
        if i == bomber {
            state.scores.set(i, 10);
        } else if i == victim {
            state.scores.set(i, LAST_SCORE);
        } else {
            state.scores.set(i, 0);
            order.push(i);
        }
        proof {
            assert(state@.players =~= prev.players.update(
                i as int,
                PlayerModel { finished: true, ..prev.players[i as int] },
            ));
            assert(state@ =~= (GameModel {
                players: state@.players,
                scores: state@.scores,
                ..before
            }));
            assert(order@ =~= bomb_order(bomber, victim).take(order.len() as int));
        }
        i += 1;
    }
    order.push(victim);
    proof {
        assert(order@ =~= bomb_order(bomber, victim));
        assert(state@.players =~= all_done(before.players));
        assert(state@.scores =~= bomb_scores(before.scores, bomber, victim));
    }
    state.finished_order = order;
    proof {
        assert(state@ =~= (GameModel {
            players: all_done(before.players),
            scores: bomb_scores(before.scores, bomber, victim),
            finished_order: bomb_order(bomber, victim),
            ..before
        }));
        lemma_rescored_headroom(before, state@);
    }
    close_round(state);
    true
}

// ---------------------------------------------------------------------------
// Dealing
// ---------------------------------------------------------------------------

/// The hand that a seat gets from a deck: its thirteen cards, sorted.
pub open spec fn dealt_hand(deck: Seq<Card>, seat: int) -> Seq<Card> {
    card::sorted_cards(deck.subrange(13 * seat, 13 * seat + 13))
}

/// Does nobody get all four twos?
pub open spec fn fair_deck(deck: Seq<Card>) -> bool {
    forall|seat: int|
        0 <= seat < 4 ==> combo::rank_count(#[trigger] dealt_hand(deck, seat), 12) != 4
}

/// Is this the deck in some order?
pub open spec fn is_shuffled_deck(deck: Seq<Card>) -> bool {
    deck.to_multiset() == card::full_deck().to_multiset()
}

impl GameModel {
    /// With the first `n` seats' hands dealt from the deck.
    pub open spec fn partly_dealt(self, deck: Seq<Card>, n: int) -> GameModel {
        GameModel {
            players: Seq::new(
                self.players.len(),
                |i: int|
                    if i < n {
                        PlayerModel { hand: dealt_hand(deck, i), ..self.players[i] }
                    } else {
                        self.players[i]
                    },
            ),
            ..self
        }
    }

    /// With the four hands dealt from the deck, thirteen cards each.
    pub open spec fn dealt(self, deck: Seq<Card>) -> GameModel {
        self.partly_dealt(deck, 4)
    }
}

/// A shuffled deck has 52 cards.
pub proof fn lemma_shuffled_deck_len(deck: Seq<Card>)
    requires
        is_shuffled_deck(deck),
    ensures
        deck.len() == 52,
{
    deck.to_multiset_ensures();
    card::full_deck().to_multiset_ensures();
}

/// The four hands together are the deck.
pub proof fn lemma_hands_are_the_deck(deck: Seq<Card>)
    requires
        is_shuffled_deck(deck),
    ensures
        dealt_hand(deck, 0).to_multiset().add(dealt_hand(deck, 1).to_multiset()).add(
            dealt_hand(deck, 2).to_multiset(),
        ).add(dealt_hand(deck, 3).to_multiset()) == card::full_deck().to_multiset(),
{
    lemma_shuffled_deck_len(deck);
    let a = deck.subrange(0, 13);
    let b = deck.subrange(13, 26);
    let c = deck.subrange(26, 39);
    let d = deck.subrange(39, 52);
    card::lemma_sorted_cards(a);
    card::lemma_sorted_cards(b);
    card::lemma_sorted_cards(c);
    card::lemma_sorted_cards(d);
    lemma_multiset_commutative(a, b);
    lemma_multiset_commutative(a + b, c);
    lemma_multiset_commutative(a + b + c, d);
    assert(a + b + c + d =~= deck);
    assert(dealt_hand(deck, 0) == card::sorted_cards(a));
    assert(dealt_hand(deck, 1) == card::sorted_cards(b));
    assert(dealt_hand(deck, 2) == card::sorted_cards(c));
    assert(dealt_hand(deck, 3) == card::sorted_cards(d));
}

/// A deal hands out the whole deck: every seat has thirteen cards, and the four
/// hands together are the deck.
pub proof fn law_deal_uses_whole_deck(game: GameModel, deck: Seq<Card>)
    requires
        is_shuffled_deck(deck),
        game.players.len() >= 4,
    ensures
        forall|i: int| 0 <= i < 4 ==> (#[trigger] game.dealt(deck).players[i]).hand.len() == 13,
        game.dealt(deck).players[0].hand.to_multiset().add(
            game.dealt(deck).players[1].hand.to_multiset(),
        ).add(game.dealt(deck).players[2].hand.to_multiset()).add(
            game.dealt(deck).players[3].hand.to_multiset(),
        ) == card::full_deck().to_multiset(),
{
    lemma_shuffled_deck_len(deck);
    lemma_hands_are_the_deck(deck);
    assert forall|i: int| 0 <= i < 4 implies (#[trigger] game.dealt(deck).players[i]).hand.len()
        == 13 by {
        card::lemma_sorted_cards(deck.subrange(13 * i, 13 * i + 13));
    }
}

/// The hand that a seat gets from the deck.
pub fn hand_from(deck: &Vec<Card>, seat: usize) -> (r: Vec<Card>)
    requires
        deck.len() == 52,
        seat < 4,
    ensures
        r@ == dealt_hand(deck@, seat as int),
{
    let mut hand: Vec<Card> = Vec::new();
    let mut k: usize = 0;
    while k < 13
        invariant
            k <= 13,
            seat < 4,
            deck.len() == 52,
            hand@ == deck@.subrange(13 * seat, 13 * seat + k),
        decreases 13 - k,
    {
        hand.push(deck[13 * seat + k]);
        assert(hand@ =~= deck@.subrange(13 * seat, 13 * seat + k + 1));
        k += 1;
    }
    card::sort_cards(&mut hand);
    hand
}

/// Deals the deck out, thirteen cards to each of the four seats.
pub fn deal_from(state: &mut GameState, deck: &Vec<Card>)
    requires
        old(state)@.players.len() >= 4,
        deck.len() == 52,
    ensures
        final(state)@ == old(state)@.dealt(deck@),
{
    let mut i: usize = 0;
    assert(state@ =~= old(state)@.partly_dealt(deck@, 0));
    while i < 4
        invariant
            i <= 4,
            deck.len() == 52,
            state.players.len() >= 4,
            state.players.len() == old(state)@.players.len(),
            state@ == old(state)@.partly_dealt(deck@, i as int),
        decreases 4 - i,
    {
        let ghost prev = state@;
        let hand = hand_from(deck, i);
        state.players[i].hand = hand;
        proof {
            assert(state@.players =~= prev.players.update(
                i as int,
                PlayerModel { hand: hand@, ..prev.players[i as int] },
            ));
            assert(state@ =~= old(state)@.partly_dealt(deck@, i + 1));
        }
        i += 1;
    }
}

/// Shuffles a deck and deals it out.
pub fn deal_cards(state: &mut GameState)
    requires
        old(state)@.players.len() >= 4,
    ensures
        exists|deck: Seq<Card>|
            is_shuffled_deck(deck) && final(state)@ == #[trigger] old(state)@.dealt(deck),
{
    let mut deck = card::create_deck();
    card::shuffle(&mut deck);
    proof {
        lemma_shuffled_deck_len(deck@);
    }
    deal_from(state, &deck);
}

// ---------------------------------------------------------------------------
// The discard of the threes
// ---------------------------------------------------------------------------

/// The threes of a hand.
pub open spec fn threes(hand: Seq<Card>) -> Seq<Card> {
    hand.filter(|c: Card| c.rank == Rank::Three)
}

/// A hand without its threes.
pub open spec fn without_threes(hand: Seq<Card>) -> Seq<Card> {
    hand.filter(|c: Card| c.rank != Rank::Three)
}

/// The highest suit among the cards; 0 where there are none.
pub open spec fn highest_suit(cards: Seq<Card>) -> int
    decreases cards.len(),
{
    if cards.len() == 0 {
        0
    } else {
        let rest = highest_suit(cards.drop_last());
        let last = cards.last().suit.index();
        if last > rest {
            last
        } else {
            rest
        }
    }
}

/// How much a hand's threes weigh: by their number, then by their highest suit.
pub open spec fn threes_weight(hand: Seq<Card>) -> int {
    threes(hand).len() * 4 + highest_suit(threes(hand))
}

/// Does seat `a` discard before seat `b`? The weightier threes go first, and
/// the lower seat where they weigh the same.
pub open spec fn discards_before(players: Seq<PlayerModel>) -> spec_fn(usize, usize) -> bool {
    |a: usize, b: usize|
        {
            ||| threes_weight(players[a as int].hand) > threes_weight(players[b as int].hand)
            ||| threes_weight(players[a as int].hand) == threes_weight(players[b as int].hand) && a
                <= b
        }
}

/// The four seats.
pub open spec fn four_seats() -> Seq<usize> {
    seq![0usize, 1usize, 2usize, 3usize]
}

/// The order in which the four seats discard.
pub open spec fn discard_order(players: Seq<PlayerModel>) -> Seq<usize> {
    four_seats().sort_by(discards_before(players))
}

impl GameModel {
    /// With the threes taken out of the first `n` seats' hands.
    pub open spec fn stripped(self, n: int) -> GameModel {
        GameModel {
            players: Seq::new(
                self.players.len(),
                |i: int|
                    if i < n {
                        PlayerModel {
                            hand: without_threes(self.players[i].hand),
                            ..self.players[i]
                        }
                    } else {
                        self.players[i]
                    },
            ),
            ..self
        }
    }

    /// With the discard of the threes begun: they are out of the hands and set
    /// aside, and the first seat of the order is at turn.
    pub open spec fn discarding(self) -> GameModel {
        let order = discard_order(self.players);
        GameModel {
            three_discard: Some(
                ThreeDiscardModel {
                    order,
                    index: 0,
                    player_cards: Seq::new(4, |i: int| threes(self.players[i].hand)),
                    discarded: seq![false, false, false, false],
                },
            ),
            phase: GamePhase::ThreeDiscard,
            current_player: order[0],
            ..self.stripped(4)
        }
    }

    /// With the discard over: play begins with the seat that discarded first.
    pub open spec fn discard_over(self) -> GameModel {
        GameModel {
            three_discard: None,
            phase: GamePhase::Playing,
            current_player: self.three_discard.unwrap().order[0],
            ..self.stripped(4)
        }
    }

    /// Can a seat discard now? It has not done so yet.
    pub open spec fn may_discard(self, seat: usize) -> bool {
        self.three_discard matches Some(td) && !td.discarded[seat as int]
    }

    /// With the seat's discard done: the turn goes to the next seat of the
    /// order, or play begins after the last.
    pub open spec fn discarded_by(self, seat: usize) -> GameModel {
        let td = self.three_discard.unwrap();
        let next = td.order.index_of_first(seat).unwrap() + 1;
        if next >= td.order.len() {
            self.discard_over()
        } else {
            GameModel {
                three_discard: Some(
                    ThreeDiscardModel { discarded: td.discarded.update(seat as int, true), ..td },
                ),
                current_player: td.order[next],
                ..self
            }
        }
    }
}

pub proof fn lemma_discards_before_total(players: Seq<PlayerModel>)
    ensures
        total_ordering(discards_before(players)),
{
}

/// The discard order names each of the four seats once, and never puts a seat
/// with lighter threes before one with weightier threes.
pub proof fn law_discard_order(players: Seq<PlayerModel>)
    ensures
        discard_order(players).len() == 4,
        discard_order(players).to_multiset() == four_seats().to_multiset(),
        forall|i: int, j: int|
            0 <= i < j < 4 ==> threes_weight(
                players[#[trigger] discard_order(players)[i] as int].hand,
            ) >= threes_weight(players[#[trigger] discard_order(players)[j] as int].hand),
        forall|i: int| 0 <= i < 4 ==> #[trigger] discard_order(players)[i] < 4,
{
    lemma_discards_before_total(players);
    let order = discard_order(players);
    four_seats().lemma_sort_by_ensures(discards_before(players));
    four_seats().to_multiset_ensures();
    order.to_multiset_ensures();
    assert forall|i: int, j: int| 0 <= i < j < 4 implies threes_weight(
        players[#[trigger] order[i] as int].hand,
    ) >= threes_weight(players[#[trigger] order[j] as int].hand) by {
        assert((discards_before(players))(order[i], order[j]));
    }
    assert forall|i: int| 0 <= i < 4 implies #[trigger] order[i] < 4 by {
        if !four_seats().contains(order[i]) {
            assert(!order.contains(order[i]));
        }
    }
}

/// Taking the threes out of a hand loses no card.
pub proof fn law_threes_split(hand: Seq<Card>)
    ensures
        threes(hand).to_multiset().add(without_threes(hand).to_multiset()) == hand.to_multiset(),
    decreases hand.len(),
{
    reveal(Seq::filter);
    broadcast use group_to_multiset_ensures;

    if hand.len() > 0 {
        law_threes_split(hand.drop_last());
        let last = hand.last();
        assert(hand =~= hand.drop_last().push(last));
        if last.rank == Rank::Three {
            assert(threes(hand) =~= threes(hand.drop_last()).push(last));
            assert(without_threes(hand) =~= without_threes(hand.drop_last()));
        } else {
            assert(threes(hand) =~= threes(hand.drop_last()));
            assert(without_threes(hand) =~= without_threes(hand.drop_last()).push(last));
        }
        assert(threes(hand).to_multiset().add(without_threes(hand).to_multiset())
            =~= hand.to_multiset());
    } else {
        assert(hand =~= Seq::<Card>::empty());
        assert(threes(hand) =~= Seq::<Card>::empty());
        assert(without_threes(hand) =~= Seq::<Card>::empty());
        assert(threes(hand).to_multiset().add(without_threes(hand).to_multiset())
            =~= hand.to_multiset());
    }
}

/// The threes of a hand.
fn pick_threes(hand: &Vec<Card>) -> (r: Vec<Card>)
    ensures
        r@ == threes(hand@),
{
    let mut out: Vec<Card> = Vec::new();
    let mut i: usize = 0;
    proof {
        reveal(Seq::filter);
    }
    assert(hand@.take(0) =~= Seq::<Card>::empty());
    while i < hand.len()
        invariant
            i <= hand.len(),
            out@ == threes(hand@.take(i as int)),
        decreases hand.len() - i,
    {
        proof {
            reveal(Seq::filter);
            assert(hand@.take(i + 1).drop_last() =~= hand@.take(i as int));
        }
        if hand[i].rank == Rank::Three {
            out.push(hand[i]);
        }
        i += 1;
    }
    assert(hand@.take(hand.len() as int) =~= hand@);
    out
}

/// The hand without its threes.
fn drop_threes(hand: &Vec<Card>) -> (r: Vec<Card>)
    ensures
        r@ == without_threes(hand@),
{
    let mut out: Vec<Card> = Vec::new();
    let mut i: usize = 0;
    proof {
        reveal(Seq::filter);
    }
    assert(hand@.take(0) =~= Seq::<Card>::empty());
    while i < hand.len()
        invariant
            i <= hand.len(),
            out@ == without_threes(hand@.take(i as int)),
        decreases hand.len() - i,
    {
        proof {
            reveal(Seq::filter);
            assert(hand@.take(i + 1).drop_last() =~= hand@.take(i as int));
        }
        if hand[i].rank != Rank::Three {
            out.push(hand[i]);
        }
        i += 1;
    }
    assert(hand@.take(hand.len() as int) =~= hand@);
    out
}

/// The highest suit among the cards; 0 where there are none.
fn find_highest_suit(cards: &Vec<Card>) -> (r: usize)
    ensures
        r == highest_suit(cards@),
        r < 4,
{
    let mut best: usize = 0;
    let mut i: usize = 0;
    assert(cards@.take(0) =~= Seq::<Card>::empty());
    while i < cards.len()
        invariant
            i <= cards.len(),
            best < 4,
            best == highest_suit(cards@.take(i as int)),
        decreases cards.len() - i,
    {
        assert(cards@.take(i + 1).drop_last() =~= cards@.take(i as int));
        let own: usize = cards[i].suit_index();
        if own > best {
            best = own;
        }
        i += 1;
    }
    assert(cards@.take(cards.len() as int) =~= cards@);
    best
}

/// Does the first pair of count and suit outweigh the second?
fn outweighs(a_count: usize, a_suit: usize, b_count: usize, b_suit: usize) -> (r: bool)
    requires
        a_suit < 4,
        b_suit < 4,
    ensures
        r == (a_count * 4 + a_suit > b_count * 4 + b_suit),
{
    a_count > b_count || (a_count == b_count && a_suit > b_suit)
}

/// The order in which the four seats discard.
fn find_discard_order(state: &GameState) -> (r: Vec<usize>)
    requires
        state@.players.len() >= 4,
    ensures
        r@ == discard_order(state@.players),
        r.len() == 4,
{
    let ghost leq = discards_before(state@.players);
    let mut counts: Vec<usize> = Vec::new();
    let mut suits: Vec<usize> = Vec::new();
    let mut order: Vec<usize> = Vec::new();
    let mut i: usize = 0;
    assert(four_seats().take(0) =~= Seq::<usize>::empty());
    while i < 4
        invariant
            i <= 4,
            leq == discards_before(state@.players),
            state@.players.len() >= 4,
            counts.len() == i,
            suits.len() == i,
            order.len() == i,
            forall|k: int|
                0 <= k < i ==> #[trigger] counts@[k] == threes(state@.players[k].hand).len(),
            forall|k: int|
                0 <= k < i ==> #[trigger] suits@[k] == highest_suit(
                    threes(state@.players[k].hand),
                ) && suits@[k] < 4,
            forall|k: int| 0 <= k < i ==> #[trigger] order@[k] < i,
            sorted_by(order@, leq),
            order@.to_multiset() == four_seats().take(i as int).to_multiset(),
        decreases 4 - i,
    {
        assert(state@.players[i as int] == state.players@[i as int]@);
        let own = pick_threes(&state.players[i].hand);
        let count: usize = own.len();
        let suit: usize = find_highest_suit(&own);
        let ghost prev = order@;
        let mut at: usize = 0;
        while at < order.len() && !outweighs(count, suit, counts[order[at]], suits[order[at]])
            invariant
                i < 4,
                at <= order.len(),
                order.len() == i,
                order@ == prev,
                counts.len() == i,
                suits.len() == i,
                suit < 4,
                leq == discards_before(state@.players),
                count == threes(state@.players[i as int].hand).len(),
                suit == highest_suit(threes(state@.players[i as int].hand)),
                forall|k: int|
                    0 <= k < i ==> #[trigger] counts@[k] == threes(state@.players[k].hand).len(),
                forall|k: int|
                    0 <= k < i ==> #[trigger] suits@[k] == highest_suit(
                        threes(state@.players[k].hand),
                    ) && suits@[k] < 4,
                forall|k: int| 0 <= k < i ==> #[trigger] order@[k] < i,
                forall|k: int| 0 <= k < at ==> leq(#[trigger] order@[k], i),
            decreases order.len() - at,
        {
            at += 1;
        }
        proof {
            lemma_discards_before_total(state@.players);
            sorting::lemma_insert_sorted(prev, at as int, i, leq);
            broadcast use group_to_multiset_ensures;

            assert(four_seats().take(i + 1) =~= four_seats().take(i as int).push(i));
        }
        order.insert(at, i);
        counts.push(count);
        suits.push(suit);
        i += 1;
    }
    proof {
        lemma_discards_before_total(state@.players);
        assert(four_seats().take(4) =~= four_seats());
        sorting::lemma_sorted_is_sort(order@, four_seats(), leq);
    }
    order
}

/// Takes the threes out of the four hands.
fn strip_threes(state: &mut GameState)
    requires
        old(state)@.players.len() >= 4,
    ensures
        final(state)@ == old(state)@.stripped(4),
{
    let mut i: usize = 0;
    assert(state@ =~= old(state)@.stripped(0));
    while i < 4
        invariant
            i <= 4,
            state.players.len() >= 4,
            state.players.len() == old(state)@.players.len(),
            state@ == old(state)@.stripped(i as int),
        decreases 4 - i,
    {
        let ghost prev = state@;
        assert(prev.players[i as int] == state.players@[i as int]@);
        let rest = drop_threes(&state.players[i].hand);
        state.players[i].hand = rest;
        proof {
            assert(state@.players =~= prev.players.update(
                i as int,
                PlayerModel { hand: rest@, ..prev.players[i as int] },
            ));
            assert(state@ =~= old(state)@.stripped(i + 1));
        }
        i += 1;
    }
}

/// Begins the discard of the threes: sets them aside and puts the seat with the
/// weightiest threes at turn.
pub fn start_three_discard(state: &mut GameState)
    requires
        old(state)@.players.len() >= 4,
    ensures
        final(state)@ == old(state)@.discarding(),
{
    let order = find_discard_order(state);
    let first: usize = order[0];
    let mut aside: Vec<Vec<Card>> = Vec::new();
    let mut flags: Vec<bool> = Vec::new();
    let mut i: usize = 0;
    while i < 4
        invariant
            i <= 4,
            state.players.len() >= 4,
            aside.len() == i,
            flags.len() == i,
            forall|k: int|
                0 <= k < i ==> (#[trigger] aside@[k])@ == threes(state@.players[k].hand),
            forall|k: int| 0 <= k < i ==> !#[trigger] flags@[k],
        decreases 4 - i,
    {
        assert(state@.players[i as int] == state.players@[i as int]@);
        let own = pick_threes(&state.players[i].hand);
        aside.push(own);
        flags.push(false);
        i += 1;
    }
    proof {
        assert(state::card_lists(aside@) =~= Seq::new(4, |i: int| threes(state@.players[i].hand)));
        assert(flags@ =~= seq![false, false, false, false]);
    }
    strip_threes(state);
    state.three_discard = Some(
        ThreeDiscardState { order, index: 0, player_cards: aside, discarded: flags },
    );
    state.phase = GamePhase::ThreeDiscard;
    state.current_player = first;
    assert(state@ =~= old(state)@.discarding());
}

/// Ends the discard: play begins with the seat that discarded first.
pub fn finish_three_discard(state: &mut GameState)
    requires
        old(state)@.players.len() >= 4,
        old(state)@.three_discard matches Some(td) && td.order.len() > 0,
    ensures
        final(state)@ == old(state)@.discard_over(),
{
    let first: usize = match &state.three_discard {
        Some(td) => td.order[0],
        None => 0,
    };
    strip_threes(state);
    state.three_discard = None;
    state.phase = GamePhase::Playing;
    state.current_player = first;
    assert(state@ =~= old(state)@.discard_over());
}

/// The place of a seat in a list of seats.
fn place_of(seats: &Vec<usize>, seat: usize) -> (r: usize)
    requires
        seats@.contains(seat),
    ensures
        seats@.index_of_first(seat) == Some(r as int),
        r < seats.len(),
{
    let mut i: usize = 0;
    while i < seats.len() && seats[i] != seat
        invariant
            i <= seats.len(),
            forall|k: int| 0 <= k < i ==> seats@[k] != seat,
        decreases seats.len() - i,
    {
        i += 1;
    }
    proof {
        let k = choose|k: int| 0 <= k < seats@.len() && seats@[k] == seat;
        assert(i < seats.len());
        seats@.index_of_first_ensures(seat);
    }
    i
}

/// One seat discards its threes. Says whether that was the last of them; a seat
/// that has discarded already changes nothing.
pub fn process_three_discard(state: &mut GameState, player_id: usize) -> (r: bool)
    requires
        old(state)@.three_discard matches Some(td) ==> (player_id as int) < td.discarded.len() && (
        !td.discarded[player_id as int] ==> td.order.contains(player_id)
            && old(state)@.players.len() >= 4),
    ensures
        !old(state)@.may_discard(player_id) ==> !r && final(state)@ == old(state)@,
        old(state)@.may_discard(player_id) ==> final(state)@ == old(state)@.discarded_by(player_id)
            && r == (final(state)@.three_discard is None),
{
    let next: usize;
    let last: bool;
    match &mut state.three_discard {
        None => {
            return false;
        },
        Some(td) => {
            if td.discarded[player_id] {
                return false;
            }
            next = place_of(&td.order, player_id) + 1;
            last = next >= td.order.len();
            if !last {
                td.discarded.set(player_id, true);
            }
        },
    }
    if last {
        finish_three_discard(state);
        return true;
    }
    match &state.three_discard {
        Some(td) => {
            state.current_player = td.order[next];
        },
        None => {},
    }
    assert(state@ =~= old(state)@.discarded_by(player_id));
    false
}

} // verus!
