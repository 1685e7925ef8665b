//! Turns: cards leave a hand and cover the table, or a player passes; then the
//! trick, the round or just the turn moves on. Bots take theirs here, and so
//! do humans who have run out of time.
use crate::game::bot;
use crate::game::card;
use crate::game::card::Card;
use crate::game::combo;
use crate::game::combo::Combo;
use crate::game::combo::ComboModel;
use crate::game::combo::ComboType;
use crate::game::rules;
use crate::game::sorting;
use crate::game::state::GameModel;
use crate::game::state::GamePhase;
use crate::game::state::GameState;
use crate::game::state::PlayerModel;
use crate::game::state::TrickModel;
use crate::game::state::TrickState;
use crate::text;
use vstd::prelude::*;
use vstd::relations::*;
use vstd::seq_lib::*;

verus! {

// ---------------------------------------------------------------------------
// Taking cards out of a hand
// ---------------------------------------------------------------------------

/// The hand after the cards at these places have been taken out, one place
/// after the other.
pub open spec fn removed(hand: Seq<Card>, places: Seq<usize>) -> Seq<Card>
    decreases places.len(),
{
    if places.len() == 0 {
        hand
    } else {
        removed(hand.remove(places[0] as int), places.drop_first())
    }
}

/// Is there a card at each of the places when its turn comes?
pub open spec fn removable(n: int, places: Seq<usize>) -> bool
    decreases places.len(),
{
    places.len() == 0 || (places[0] < n && removable(n - 1, places.drop_first()))
}

/// The hand after the cards at these places have been taken out, from the last
/// place to the first.
pub open spec fn hand_after(hand: Seq<Card>, places: Seq<usize>) -> Seq<Card> {
    removed(hand, places.sort_by(sorting::descending()))
}

/// Can the cards at these places be taken out, from the last place to the
/// first? Different places of the hand always can.
pub open spec fn can_take(hand: Seq<Card>, places: Seq<usize>) -> bool {
    removable(hand.len() as int, places.sort_by(sorting::descending()))
}

/// The places in descending order, each once.
spec fn strictly_descending(places: Seq<usize>) -> bool {
    forall|a: int, b: int| 0 <= a < b < places.len() ==> places[a] > places[b]
}

proof fn lemma_removed_descending(hand: Seq<Card>, places: Seq<usize>)
    requires
        strictly_descending(places),
        places.len() > 0 ==> places[0] < hand.len(),
    ensures
        removable(hand.len() as int, places),
        removed(hand, places).len() == hand.len() - places.len(),
        hand.to_multiset() == removed(hand, places).to_multiset().add(
            bot::cards_at(hand, places).to_multiset(),
        ),
    decreases places.len(),
{
    broadcast use group_to_multiset_ensures;

    if places.len() == 0 {
        assert(bot::cards_at(hand, places) =~= Seq::<Card>::empty());
        assert(hand.to_multiset() =~= hand.to_multiset().add(Seq::<Card>::empty().to_multiset()));
    } else {
        let at = places[0] as int;
        let rest = places.drop_first();
        let shorter = hand.remove(at);
        assert forall|a: int, b: int| 0 <= a < b < rest.len() implies rest[a] > rest[b] by {
            assert(places[a + 1] > places[b + 1]);
        }
        assert forall|k: int| 0 <= k < rest.len() implies rest[k] < at by {
            assert(places[0] > places[k + 1]);
        }
        if rest.len() > 0 {
            assert(rest[0] < at);
        }
        lemma_removed_descending(shorter, rest);
        let head = hand[at];
        let tail = bot::cards_at(hand, rest);
        assert(bot::cards_at(shorter, rest) =~= tail);
        assert(bot::cards_at(hand, places) =~= seq![head] + tail);
        lemma_multiset_commutative(seq![head], tail);
        assert(seq![head] =~= Seq::<Card>::empty().push(head));
        assert(hand =~= shorter.insert(at, head));
        assert(hand.to_multiset() == shorter.to_multiset().insert(head));
        assert(bot::cards_at(hand, places).to_multiset() =~= tail.to_multiset().insert(head));
        assert(hand.to_multiset() =~= removed(hand, places).to_multiset().add(
            bot::cards_at(hand, places).to_multiset(),
        ));
    }
}

proof fn lemma_cards_at_permuted(hand: Seq<Card>, a: Seq<usize>, b: Seq<usize>)
    requires
        a.to_multiset() == b.to_multiset(),
    ensures
        bot::cards_at(hand, a).to_multiset() == bot::cards_at(hand, b).to_multiset(),
    decreases a.len(),
{
    broadcast use group_to_multiset_ensures;

    if a.len() == 0 {
        assert(a.to_multiset().len() == 0 && b.to_multiset().len() == 0);
        assert(bot::cards_at(hand, a) =~= bot::cards_at(hand, b));
    } else {
        let x = a.last();
        assert(a.contains(x));
        assert(b.to_multiset().count(x) > 0);
        let i = choose|i: int| 0 <= i < b.len() && b[i] == x;
        let shorter = b.remove(i);
        assert(a.drop_last() =~= a.remove(a.len() - 1));
        lemma_cards_at_permuted(hand, a.drop_last(), shorter);
        let ca = bot::cards_at(hand, a);
        let cb = bot::cards_at(hand, b);
        assert(ca.drop_last() =~= bot::cards_at(hand, a.drop_last()));
        assert(ca =~= ca.drop_last().push(hand[x as int]));
        assert(cb.remove(i) =~= bot::cards_at(hand, shorter));
        assert(cb =~= cb.remove(i).insert(i, hand[x as int]));
    }
}

/// Different places of a hand can always be taken out, and what was in the hand
/// is then either still there or among the cards taken.
pub proof fn law_taking_conserves_cards(hand: Seq<Card>, places: Seq<usize>)
    requires
        places.no_duplicates(),
        forall|k: int| 0 <= k < places.len() ==> (#[trigger] places[k] as int) < hand.len(),
    ensures
        can_take(hand, places),
        hand_after(hand, places).len() == hand.len() - places.len(),
        hand.to_multiset() == hand_after(hand, places).to_multiset().add(
            bot::cards_at(hand, places).to_multiset(),
        ),
{
    broadcast use group_to_multiset_ensures;

    let desc = places.sort_by(sorting::descending());
    places.lemma_sort_by_ensures(sorting::descending());
    places.lemma_multiset_has_no_duplicates();
    desc.lemma_multiset_has_no_duplicates_conv();
    assert forall|a: int, b: int| 0 <= a < b < desc.len() implies desc[a] > desc[b] by {
        assert((sorting::descending())(desc[a], desc[b]));
        assert(desc[a] != desc[b]);
    }
    if desc.len() > 0 {
        assert(desc.contains(desc[0]));
        assert(places.contains(desc[0]));
    }
    assert(desc.to_multiset().len() == places.to_multiset().len());
    lemma_removed_descending(hand, desc);
    lemma_cards_at_permuted(hand, places, desc);
}

/// Can the cards at these places be taken out of a hand of `n` cards?
pub fn can_take_out(n: usize, places: &Vec<usize>) -> (r: bool)
    ensures
        r == removable(n as int, places@.sort_by(sorting::descending())),
{
    let order = sorting::sorted_descending(places);
    let mut i: usize = 0;
    let ghost all = order@;
    assert(all.skip(0) =~= all);
    while i < order.len()
        invariant
            i <= order.len(),
            i <= n,
            all == order@,
            all == places@.sort_by(sorting::descending()),
            removable(n as int, all) == removable(n - i, all.skip(i as int)),
        decreases order.len() - i,
    {
        assert(all.skip(i as int).drop_first() =~= all.skip(i + 1));
        assert(all.skip(i as int)[0] == order@[i as int]);
        if order[i] >= n - i {
            return false;
        }
        i += 1;
    }
    true
}

/// Takes the cards at these places out of the hand, from the last place to the
/// first.
pub fn take_out(hand: &mut Vec<Card>, places: &Vec<usize>)
    requires
        can_take(old(hand)@, places@),
    ensures
        final(hand)@ == hand_after(old(hand)@, places@),
{
    let order = sorting::sorted_descending(places);
    let mut i: usize = 0;
    let ghost all = order@;
    assert(all.skip(0) =~= all);
    while i < order.len()
        invariant
            i <= order.len(),
            all == order@,
            removable(hand@.len() as int, all.skip(i as int)),
            removed(hand@, all.skip(i as int)) == removed(old(hand)@, all),
        decreases order.len() - i,
    {
        assert(all.skip(i as int).drop_first() =~= all.skip(i + 1));
        assert(all.skip(i as int)[0] == order@[i as int]);
        hand.remove(order[i]);
        i += 1;
    }
}

// ---------------------------------------------------------------------------
// One turn
// ---------------------------------------------------------------------------

impl TrickModel {
    /// With new cards on the table. Whose cards they cover is noted, and
    /// everybody who passed may answer again.
    pub open spec fn covered(self, seat: usize, cards: Seq<Card>, kind: ComboType) -> TrickModel {
        TrickModel {
            cards,
            combo_type: Some(kind),
            combo_player: Some(seat),
            passed: if self.combo_player is Some {
                Seq::empty()
            } else {
                self.passed
            },
            played: match self.combo_player {
                Some(last) => if !self.played.contains(last) && !self.passed.contains(last) {
                    self.played.push(last)
                } else {
                    self.played
                },
                None => self.played,
            },
        }
    }
}

impl GameModel {
    /// What has to hold for a turn to be taken: a full table, the last player
    /// of the trick at it, and room for a round to end.
    pub open spec fn sound(self) -> bool {
        &&& self.seated()
        &&& self.trick.combo_player matches Some(w) ==> (w as int) < self.players.len()
        &&& self.phase != GamePhase::GameOver ==> self.headroom()
    }

    /// A table at which nothing has been dealt or played, as in the lobby:
    /// whoever tries to move there changes nothing.
    pub open spec fn untouched(self) -> bool {
        &&& self.phase == GamePhase::Lobby
        &&& (self.current_player as int) < self.players.len()
        &&& self.finished_order.len() < 3
        &&& self.trick.combo_player is None
        &&& forall|i: int|
            0 <= i < self.players.len() ==> (#[trigger] self.players[i]).hand.len() == 0
    }

    /// What has to hold for somebody to try a move.
    pub open spec fn movable(self) -> bool {
        ||| self.untouched()
        ||| self.sound() && self.turn_seq < u32::MAX
    }

    /// Does the player run out of cards by playing these?
    pub open spec fn empties(self, seat: usize, places: Seq<usize>) -> bool {
        let p = self.players[seat as int];
        hand_after(p.hand, places).len() == 0 && !p.finished
    }

    /// With the cards at these places of the seat's hand put on the table as a
    /// combination of this kind. A player whose hand is then empty has
    /// finished and is scored by the place they finish in.
    pub open spec fn cards_down(
        self,
        seat: usize,
        places: Seq<usize>,
        kind: ComboType,
    ) -> GameModel {
        let p = self.players[seat as int];
        let out = self.empties(seat, places);
        GameModel {
            players: self.players.update(
                seat as int,
                PlayerModel {
                    hand: hand_after(p.hand, places),
                    finished: p.finished || out,
                    ..p
                },
            ),
            finished_order: if out {
                self.finished_order.push(seat)
            } else {
                self.finished_order
            },
            scores: if out {
                self.scores.update(
                    seat as int,
                    rules::position_score(self.finished_order.len() + 1),
                )
            } else {
                self.scores
            },
            trick: self.trick.covered(seat, bot::cards_at(p.hand, places), kind),
            ..self
        }
    }

    /// With a pass noted.
    pub open spec fn passed_by(self, seat: usize) -> GameModel {
        GameModel {
            trick: TrickModel { passed: self.trick.passed.push(seat), ..self.trick },
            ..self
        }
    }

    /// With the next seat at turn.
    pub open spec fn moved_on(self) -> GameModel {
        GameModel { current_player: rules::seat_after(self.current_player), ..self }
    }

    /// After a play or a pass. A trick that is over ends the round if it is a
    /// bomb, and is led anew by its winner otherwise; the round is closed once
    /// three have finished; else the next seat is at turn. With `skip`, the
    /// turn goes on to a player who still has cards.
    pub open spec fn settled(self, skip: bool) -> GameModel {
        match self.trick_winner() {
            Some(winner) => if self.bomb_parties() is Some {
                self.bombed()
            } else if skip {
                self.led_by(winner).skipped().finalized()
            } else {
                self.led_by(winner).finalized()
            },
            None => if self.finished_order.len() >= 3 {
                self.finalized()
            } else if skip {
                self.moved_on().skipped()
            } else {
                self.moved_on()
            },
        }
    }
}

/// What holds of a game before a turn holds after it.
pub proof fn lemma_settled_sound(game: GameModel, skip: bool)
    requires
        game.sound(),
    ensures
        game.settled(skip).sound(),
        game.settled(skip).players.len() == game.players.len(),
        game.settled(skip).scores.len() == game.scores.len(),
        game.settled(skip).turn_seq == game.turn_seq,
        game.finished_order.len() >= 3 ==> game.settled(skip).phase == GamePhase::GameOver,
        game.settled(skip).phase == GamePhase::GameOver || game.settled(skip).finished_order
            == game.finished_order,
        game.settled(skip).phase == GamePhase::GameOver || game.settled(skip).phase == game.phase,
{
    reveal_with_fuel(GameModel::active_from, 5);
    rules::lemma_first_unfinished(game, 0);
    if let Some(winner) = game.trick_winner() {
        assert(game.trick.combo_player == Some(winner));
        rules::lemma_first_unfinished(game.led_by(winner), 0);
        rules::lemma_first_unfinished(game.led_by(winner).skipped(), 0);
    }
}

pub proof fn lemma_cards_down_sound(
    game: GameModel,
    seat: usize,
    places: Seq<usize>,
    kind: ComboType,
)
    requires
        game.sound(),
        (seat as int) < game.players.len(),
    ensures
        game.cards_down(seat, places, kind).sound(),
{
    let next = game.cards_down(seat, places, kind);
    if game.phase != GamePhase::GameOver {
        rules::lemma_rescored_headroom(game, next);
    }
}

/// Puts the cards at these places of the seat's hand on the table.
pub fn put_cards_down(
    state: &mut GameState,
    seat: usize,
    places: &Vec<usize>,
    kind: ComboType,
) -> (r: bool)
    requires
        old(state)@.seated(),
        (seat as int) < old(state)@.players.len(),
        old(state)@.finished_order.len() < usize::MAX,
        can_take(old(state)@.players[seat as int].hand, places@),
        forall|k: int|
            0 <= k < places@.len() ==> (#[trigger] places@[k] as int)
                < old(state)@.players[seat as int].hand.len(),
    ensures
        final(state)@ == old(state)@.cards_down(seat, places@, kind),
        r == old(state)@.empties(seat, places@),
{
    let ghost before = state@;
    assert(before.players[seat as int] == state.players@[seat as int]@);
    let cards = bot::pick_cards(state.players[seat].hand.as_slice(), places);
    let mut hand = combo::copy_cards(&state.players[seat].hand);
    take_out(&mut hand, places);
    let out: bool = hand.len() == 0 && !state.players[seat].finished;
    state.players[seat].hand = hand;
    let ghost p = before.players[seat as int];
    assert(state@.players =~= before.players.update(
        seat as int,
        PlayerModel { hand: hand_after(p.hand, places@), ..p },
    ));
    if out {
        state.players[seat].finished = true;
        state.finished_order.push(seat);
        let pos: usize = state.finished_order.len();
        let score: i32 = if pos == 1 {
            10
        } else if pos == 2 {
            5
        } else if pos == 3 {
            0
        } else {
            rules::LAST_SCORE
        };
        state.scores.set(seat, score);
    }
    assert(state@.players =~= before.players.update(
        seat as int,
        PlayerModel { hand: hand_after(p.hand, places@), finished: p.finished || out, ..p },
    ));
    cover_trick(&mut state.trick, seat, cards, kind);
    assert(state@ =~= before.cards_down(seat, places@, kind));
    out
}

/// Puts new cards on the table.
fn cover_trick(trick: &mut TrickState, seat: usize, cards: Vec<Card>, kind: ComboType)
    ensures
        final(trick)@ == old(trick)@.covered(seat, cards@, kind),
{
    if let Some(last) = trick.combo_player {
        if !rules::has_seat(&trick.played, last) && !rules::has_seat(&trick.passed, last) {
            trick.played.push(last);
        }
        trick.passed = Vec::new();
    }
    trick.cards = cards;
    trick.combo_type = Some(kind);
    trick.combo_player = Some(seat);
    assert(trick@ =~= old(trick)@.covered(seat, cards@, kind));
}

/// Notes a pass.
pub fn note_pass(state: &mut GameState, seat: usize)
    ensures
        final(state)@ == old(state)@.passed_by(seat),
{
    state.trick.passed.push(seat);
    assert(state@ =~= old(state)@.passed_by(seat));
}

/// Counts a turn.
pub fn bump_turn(state: &mut GameState)
    requires
        old(state)@.turn_seq < u32::MAX,
    ensures
        final(state)@ == old(state)@.bumped(),
{
    state.turn_seq = state.turn_seq + 1;
    assert(state@ =~= old(state)@.bumped());
}

/// Puts the next seat at turn.
pub fn move_on(state: &mut GameState)
    requires
        old(state)@.seated(),
    ensures
        final(state)@ == old(state)@.moved_on(),
        final(state)@.seated(),
{
    assert(state.players.len() == state@.players.len());
    state.current_player = rules::next_player(state);
    assert(state@ =~= old(state)@.moved_on());
}

// ---------------------------------------------------------------------------
// Bots
// ---------------------------------------------------------------------------

impl GameModel {
    /// The kind of combination at these places of a seat's hand.
    pub open spec fn kind_at(self, seat: usize, places: Seq<usize>) -> ComboType {
        combo::combo_type_of(bot::cards_at(self.players[seat as int].hand, places)).unwrap()
    }

    /// With the turn of the bot at turn taken. One that has finished is passed
    /// over.
    pub open spec fn bot_turn(self) -> GameModel {
        let seat = self.current_player;
        if self.players[seat as int].finished {
            self.moved_on()
        } else {
            match bot::bot_choice(self, seat) {
                Some(places) => self.cards_down(
                    seat,
                    places,
                    self.kind_at(seat, places),
                ).bumped().settled(false),
                None => self.passed_by(seat).bumped().settled(false),
            }
        }
    }

    /// Is there anything for the turns to do: a game that goes on, or a round to
    /// be closed?
    pub open spec fn on(self) -> bool {
        self.phase == GamePhase::Playing || self.finished_order.len() >= 3
    }

    /// Is it a bot's turn in a game that goes on?
    pub open spec fn bot_is_up(self) -> bool {
        &&& self.phase == GamePhase::Playing
        &&& self.finished_order.len() < 3
        &&& self.players[self.current_player as int].is_bot
    }

    /// After up to `turns` turns of bots, until a human is at turn or the round
    /// is over.
    pub open spec fn bots_played(self, turns: nat) -> GameModel
        decreases turns,
    {
        if turns == 0 {
            self
        } else if self.finished_order.len() >= 3 {
            self.finalized()
        } else if !self.bot_is_up() {
            self
        } else {
            self.bot_turn().bots_played((turns - 1) as nat)
        }
    }

    /// After the bots have played until a human is at turn or the round is over,
    /// a hundred turns at most.
    pub open spec fn bots_done(self) -> GameModel {
        self.bots_played(100)
    }

    /// After one turn of a bot, with the turn moved on to a player who still
    /// has cards.
    pub open spec fn one_bot_turn(self) -> GameModel {
        if self.finished_order.len() >= 3 {
            self.finalized()
        } else if !self.bot_is_up() {
            self
        } else if self.bot_turn().phase == GamePhase::Playing {
            self.bot_turn().skipped()
        } else {
            self.bot_turn()
        }
    }
}

/// A bot's turn keeps a game sound, and moves the turn counter by at most one.
pub proof fn lemma_bot_turn_sound(game: GameModel)
    requires
        game.sound(),
        game.bot_is_up(),
        game.turn_seq < u32::MAX,
    ensures
        game.bot_turn().sound(),
        game.bot_turn().players.len() == game.players.len(),
        game.bot_turn().turn_seq <= game.turn_seq + 1,
        game.bot_turn().phase == GamePhase::Playing ==> game.bot_turn().finished_order.len() < 3,
        game.bot_turn().phase == GamePhase::Playing || game.bot_turn().phase
            == GamePhase::GameOver,
{
    let seat = game.current_player;
    if !game.players[seat as int].finished {
        match bot::bot_choice(game, seat) {
            Some(places) => {
                let kind = game.kind_at(seat, places);
                lemma_cards_down_sound(game, seat, places, kind);
                let down = game.cards_down(seat, places, kind).bumped();
                lemma_settled_sound(down, false);
            },
            None => {
                lemma_settled_sound(game.passed_by(seat).bumped(), false);
            },
        }
    }
}

/// What holds of a human when bots have taken turns: hand, name and seat are
/// theirs as before, and so is the mark of having finished, unless a bomb has
/// ended the round for all four.
pub open spec fn left_alone(before: GameModel, after: GameModel, i: int) -> bool {
    &&& after.players[i] == (PlayerModel {
        finished: after.players[i].finished,
        ..before.players[i]
    })
    &&& after.players[i].finished == before.players[i].finished || (after.phase
        == GamePhase::GameOver && after.trick.combo_type == Some(ComboType::Bomb))
}

/// A bot's turn touches nobody else's hand, and ends nobody else's round but by
/// a bomb.
proof fn lemma_bot_turn_leaves_others(game: GameModel, i: int)
    requires
        game.sound(),
        game.bot_is_up(),
        0 <= i < game.players.len(),
        i != game.current_player,
    ensures
        left_alone(game, game.bot_turn(), i),
{
}

/// Bots that take their turns leave the humans at the table alone.
pub proof fn law_bots_leave_humans_alone(game: GameModel, turns: nat, i: int)
    requires
        game.sound(),
        game.turn_seq + turns <= u32::MAX,
        0 <= i < game.players.len(),
        !game.players[i].is_bot,
    ensures
        left_alone(game, game.bots_played(turns), i),
    decreases turns,
{
    if turns > 0 && game.finished_order.len() < 3 && game.bot_is_up() {
        lemma_bot_turn_sound(game);
        lemma_bot_turn_leaves_others(game, i);
        let next = game.bot_turn();
        if next.phase == GamePhase::Playing {
            law_bots_leave_humans_alone(next, (turns - 1) as nat, i);
        } else {
            reveal_with_fuel(GameModel::bots_played, 2);
            assert(game.bots_played(turns) == next);
        }
    }
}

/// A single bot that takes its turn leaves the humans at the table alone.
pub proof fn law_one_bot_leaves_humans_alone(game: GameModel, i: int)
    requires
        game.sound(),
        0 <= i < game.players.len(),
        !game.players[i].is_bot,
    ensures
        left_alone(game, game.one_bot_turn(), i),
{
    if game.bot_is_up() {
        lemma_bot_turn_leaves_others(game, i);
    }
}

/// The combination on the table, if somebody has led.
pub fn table_combo(state: &GameState) -> (r: Option<Combo>)
    ensures
        rules::opt_combo(r) == bot::table_of(state@),
{
    if state.trick.combo_player.is_some() {
        combo::detect_combo(state.trick.cards.as_slice())
    } else {
        None
    }
}

/// Settles a bot's play or pass: the trick, the round or the turn moves on.
fn settle_bot(state: &mut GameState)
    requires
        old(state)@.sound(),
    ensures
        final(state)@ == old(state)@.settled(false),
{
    match rules::check_trick_complete(state) {
        Some(winner) => {
            if rules::maybe_end_game_by_bomb(state) {
                return;
            }
            rules::resolve_trick(state, winner);
            proof {
                rules::lemma_last_placed_fits(state@);
            }
            rules::finalize_game(state);
        },
        None => {
            if state.finished_order.len() >= 3 {
                proof {
                    rules::lemma_last_placed_fits(state@);
                }
                rules::finalize_game(state);
            } else {
                move_on(state);
            }
        },
    }
}

/// Takes the turn of the bot at turn.
fn take_bot_turn(state: &mut GameState)
    requires
        old(state)@.sound(),
        old(state)@.bot_is_up(),
        old(state)@.turn_seq < u32::MAX,
    ensures
        final(state)@ == old(state)@.bot_turn(),
{
    let seat: usize = state.current_player;
    assert(state@.players[seat as int] == state.players@[seat as int]@);
    if state.players[seat].finished {
        move_on(state);
        return;
    }
    let ghost before = state@;
    proof {
        assert(state.players@[seat as int].hand.len() <= usize::MAX);
        bot::law_bot_plays_by_the_rules(before, seat);
    }
    match bot::bot_play(state, seat) {
        Some(places) => {
            proof {
                let hand = before.players[seat as int].hand;
                law_taking_conserves_cards(hand, places@);
                rules::law_verdict_explains(
                    bot::cards_at(hand, places@),
                    bot::table_of(before),
                );
            }
            let cards = bot::pick_cards(state.players[seat].hand.as_slice(), &places);
            let table = table_combo(state);
            let result = rules::validate_play(cards.as_slice(), table.as_ref());
            assert(result@ == rules::verdict(cards@, bot::table_of(before)));
            match result.combo {
                Some(c) => {
                    let kind = c.combo_type;
                    assert(kind == before.kind_at(seat, places@));
                    put_cards_down(state, seat, &places, kind);
                    proof {
                        lemma_cards_down_sound(before, seat, places@, kind);
                    }
                    bump_turn(state);
                    settle_bot(state);
                },
                None => {
                    assert(false);
                },
            }
        },
        None => {
            note_pass(state, seat);
            bump_turn(state);
            settle_bot(state);
        },
    }
}

/// Lets the bots play, one after the other, until a human is at turn or the
/// round is over. Stops after a hundred turns.
pub fn process_bot_turns(state: &mut GameState)
    requires
        old(state)@.on() ==> old(state)@.sound() && old(state)@.turn_seq + 100 <= u32::MAX,
    ensures
        final(state)@ == old(state)@.bots_played(100),
        final(state)@ == old(state)@.bots_done(),
{
    if state.phase != GamePhase::Playing && state.finished_order.len() < 3 {
        return;
    }
    let mut left: usize = 100;
    while left > 0
        invariant_except_break
            state@.bots_played(left as nat) == old(state)@.bots_played(100),
            state@.sound(),
            state@.turn_seq + left <= u32::MAX,
            left <= 100,
        ensures
            state@ == old(state)@.bots_played(100),
        decreases left,
    {
        if state.finished_order.len() >= 3 {
            proof {
                rules::lemma_last_placed_fits(state@);
            }
            rules::finalize_game(state);
            break;
        }
        assert(state@.players[state@.current_player as int]
            == state.players@[state@.current_player as int]@);
        if state.phase != GamePhase::Playing || !state.players[state.current_player].is_bot {
            break;
        }
        proof {
            lemma_bot_turn_sound(state@);
        }
        take_bot_turn(state);
        left -= 1;
    }
}

/// Takes one bot's turn and moves on to a player who still has cards. Says
/// whether a bot is up again.
pub fn process_one_bot_turn(state: &mut GameState) -> (r: bool)
    requires
        old(state)@.on() ==> old(state)@.sound() && old(state)@.turn_seq < u32::MAX,
    ensures
        final(state)@ == old(state)@.one_bot_turn(),
        r == final(state)@.bot_is_up(),
{
    if state.phase != GamePhase::Playing && state.finished_order.len() < 3 {
        return false;
    }
    if state.finished_order.len() >= 3 {
        proof {
            rules::lemma_last_placed_fits(state@);
        }
        rules::finalize_game(state);
        return false;
    }
    assert(state@.players[state@.current_player as int]
        == state.players@[state@.current_player as int]@);
    if state.phase != GamePhase::Playing || !state.players[state.current_player].is_bot {
        return false;
    }
    proof {
        lemma_bot_turn_sound(state@);
    }
    take_bot_turn(state);
    if state.phase != GamePhase::Playing {
        return false;
    }
    rules::skip_finished(state);
    assert(state@.players[state@.current_player as int]
        == state.players@[state@.current_player as int]@);
    state.finished_order.len() < 3 && state.players[state.current_player].is_bot
}

// ---------------------------------------------------------------------------
// Humans who have run out of time
// ---------------------------------------------------------------------------

/// May this card be played alone?
pub open spec fn single_fits(c: Card, table: Option<ComboModel>) -> bool {
    rules::verdict(seq![c], table).valid
}

/// The lowest of the first `n` cards that may be played alone.
pub open spec fn lowest_single(hand: Seq<Card>, table: Option<ComboModel>, n: int) -> Option<Card>
    decreases n,
{
    if n <= 0 {
        None
    } else {
        let c = hand[n - 1];
        match lowest_single(hand, table, n - 1) {
            None => if single_fits(c, table) {
                Some(c)
            } else {
                None
            },
            Some(best) => if single_fits(c, table) && c.key() < best.key() {
                Some(c)
            } else {
                Some(best)
            },
        }
    }
}

/// What is played for a player whose time has run out: the lowest card that may
/// be played alone, or nothing, which is a pass.
pub open spec fn idle_choice(game: GameModel, seat: usize) -> Option<Card> {
    let hand = game.players[seat as int].hand;
    lowest_single(hand, bot::table_of(game), hand.len() as int)
}

/// What is played for a player whose time has run out is a card of their hand
/// that may be played, and no lower one may.
pub proof fn law_idle_choice(hand: Seq<Card>, table: Option<ComboModel>, n: int)
    requires
        n <= hand.len(),
    ensures
        match lowest_single(hand, table, n) {
            Some(c) => single_fits(c, table) && hand.contains(c) && forall|k: int|
                0 <= k < n && single_fits(#[trigger] hand[k], table) ==> c.key() <= hand[k].key(),
            None => forall|k: int| 0 <= k < n ==> !single_fits(#[trigger] hand[k], table),
        },
    decreases n,
{
    if n > 0 {
        law_idle_choice(hand, table, n - 1);
        assert(hand.contains(hand[n - 1]));
    }
}

/// On a free table something can always be played: whoever has cards and runs
/// out of time plays their lowest card.
pub proof fn law_idle_lead_never_passes(game: GameModel, seat: usize)
    requires
        (seat as int) < game.players.len(),
        game.trick.combo_player is None,
        game.players[seat as int].hand.len() > 0,
    ensures
        idle_choice(game, seat) is Some,
{
    let hand = game.players[seat as int].hand;
    law_idle_choice(hand, None, hand.len() as int);
    assert(single_fits(hand[0], None)) by {
        assert(seq![hand[0]].len() == 1);
    }
}

/// The ids of the cards to play for a player whose time has run out: the lowest
/// card that may be played alone. `None` is a pass.
pub fn idle_auto_move(state: &GameState, player_id: usize) -> (r: Option<Vec<String>>)
    requires
        (player_id as int) < state@.players.len(),
    ensures
        match r {
            Some(ids) => idle_choice(state@, player_id) matches Some(c) && text::texts(ids@)
                == seq![c.id()],
            None => idle_choice(state@, player_id) is None,
        },
{
    let hand = &state.players[player_id].hand;
    assert(hand@ == state@.players[player_id as int].hand);
    let table = table_combo(state);
    let ghost shown = bot::table_of(state@);
    let mut best: Option<Card> = None;
    let mut i: usize = 0;
    while i < hand.len()
        invariant
            i <= hand.len(),
            shown == rules::opt_combo(table),
            best == lowest_single(hand@, shown, i as int),
        decreases hand.len() - i,
    {
        let c = hand[i];
        let mut one: Vec<Card> = Vec::new();
        one.push(c);
        assert(one@ =~= seq![c]);
        if rules::validate_play(one.as_slice(), table.as_ref()).valid {
            best = match best {
                None => Some(c),
                Some(b) => if card::key_of(&c) < card::key_of(&b) {
                    Some(c)
                } else {
                    Some(b)
                },
            };
        }
        i += 1;
    }
    match best {
        Some(c) => {
            let mut ids: Vec<String> = Vec::new();
            ids.push(c.card_id());
            assert(text::texts(ids@) =~= seq![c.id()]);
            Some(ids)
        },
        None => None,
    }
}

} // verus!
