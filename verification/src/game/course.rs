//! The course of a round as its players know it: whose turn it is, who takes a
//! trick, and what everybody's place is worth.
use crate::game::bot;
use crate::game::card::Card;
use crate::game::combo;
use crate::game::combo::ComboType;
use crate::game::engine;
use crate::game::engine::EventModel;
use crate::game::rules;
use crate::game::state;
use crate::game::state::GameModel;
use crate::game::state::GamePhase;
use crate::game::state::PlayerModel;
use crate::game::state::TrickModel;
use crate::game::turn;
use vstd::prelude::*;

verus! {

// ---------------------------------------------------------------------------
// Turns
// ---------------------------------------------------------------------------

/// Turns go round the table of four: from each seat to the next, and from the
/// last to the first.
pub proof fn law_turns_go_round(seat: usize)
    requires
        seat < 4,
    ensures
        seat < 3 ==> rules::seat_after(seat) == seat + 1,
        seat == 3 ==> rules::seat_after(seat) == 0,
{
}

/// The seat so many seats on.
pub open spec fn seats_on(seat: usize, steps: int) -> int {
    (seat + steps) % 4
}

/// Passing over finished players ends at the first seat, from the one at turn on,
/// whose player has not finished, and changes nothing else.
pub proof fn law_finished_players_are_passed_over(game: GameModel, steps: int)
    requires
        game.players.len() >= 4,
        game.current_player < 4,
        0 <= steps < 4,
        !game.players[seats_on(game.current_player, steps)].finished,
        forall|k: int|
            0 <= k < steps ==> game.players[#[trigger] seats_on(game.current_player, k)].finished,
    ensures
        game.skipped() == (GameModel {
            current_player: seats_on(game.current_player, steps) as usize,
            ..game
        }),
{
    reveal_with_fuel(GameModel::active_from, 5);
    let seat = game.current_player;
    if steps > 0 {
        assert(game.players[seats_on(seat, 0)].finished);
    }
    if steps > 1 {
        assert(game.players[seats_on(seat, 1)].finished);
    }
    if steps > 2 {
        assert(game.players[seats_on(seat, 2)].finished);
    }
}

// ---------------------------------------------------------------------------
// Tricks
// ---------------------------------------------------------------------------

/// Four players, each in the seat of their number.
pub open spec fn table_of_four(game: GameModel) -> bool {
    game.players.len() == 4 && forall|i: int|
        0 <= i < 4 ==> (#[trigger] game.players[i]).id == i
}

/// Is the seat out of the trick: has its player finished, or passed?
pub open spec fn is_out(game: GameModel, seat: int) -> bool {
    game.players[seat].finished || game.trick.passed.contains(seat as usize)
}

/// A trick is over when all but the one whose cards lie on the table are out of
/// it, and it is that one's.
pub proof fn law_trick_goes_to_the_last_one_in(game: GameModel, leader: usize)
    requires
        table_of_four(game),
        leader < 4,
        game.trick.combo_player == Some(leader),
    ensures
        game.trick_winner() == (if forall|i: int|
            0 <= i < 4 && i != leader ==> #[trigger] is_out(game, i) {
            Some(leader)
        } else {
            None
        }),
{
    reveal_with_fuel(rules::out_count, 5);
    let ps = game.players;
    let p3 = ps.drop_last();
    let p2 = p3.drop_last();
    let p1 = p2.drop_last();
    assert(ps.last() == ps[3] && p3.last() == ps[2] && p2.last() == ps[1] && p1.last() == ps[0]);
    assert(ps[0].id == 0 && ps[1].id == 1 && ps[2].id == 2 && ps[3].id == 3);
    let all = forall|i: int| 0 <= i < 4 && i != leader ==> #[trigger] is_out(game, i);
    assert(all <==> (leader == 0 || is_out(game, 0)) && (leader == 1 || is_out(game, 1)) && (leader
        == 2 || is_out(game, 2)) && (leader == 3 || is_out(game, 3)));
}

/// Nobody takes a trick that nobody has led.
pub proof fn law_no_lead_no_winner(game: GameModel)
    requires
        game.trick.combo_player is None,
    ensures
        game.trick_winner() is None,
{
}

/// How many players are out of a trick is how many of the others have finished
/// or passed.
pub proof fn law_bystanders_counted(players: Seq<PlayerModel>, leader: usize, passed: Seq<usize>)
    ensures
        rules::out_count(players, leader, passed) == players.filter(
            |p: PlayerModel| p.id != leader && (p.finished || passed.contains(p.id)),
        ).len(),
    decreases players.len(),
{
    reveal(Seq::filter);
    if players.len() > 0 {
        law_bystanders_counted(players.drop_last(), leader, passed);
    }
}

/// Whoever takes a trick leads the next one on an empty table.
pub proof fn law_winner_leads_anew(game: GameModel, winner: usize)
    ensures
        ({
            let after = game.led_by(winner);
            &&& after.current_player == winner
            &&& after.trick.cards.len() == 0
            &&& after.trick.combo_type is None
            &&& after.trick.combo_player is None
            &&& after.trick.passed.len() == 0
            &&& after.trick.played.len() == 0
            &&& after.players == game.players
            &&& after.scores == game.scores
            &&& after.finished_order == game.finished_order
            &&& after.phase == game.phase
            &&& after.turn_seq == game.turn_seq
        }),
{
}

/// Cards that cover a trick lie on the table as their player's. Whoever had
/// passed is in the trick again, and the one whose cards are covered is noted
/// once among those who have played.
pub proof fn law_covering_a_trick(trick: TrickModel, seat: usize, cards: Seq<Card>, kind: ComboType)
    ensures
        ({
            let after = trick.covered(seat, cards, kind);
            &&& after.cards == cards
            &&& after.combo_type == Some(kind)
            &&& after.combo_player == Some(seat)
            &&& trick.combo_player is Some ==> after.passed.len() == 0
            &&& trick.combo_player is None ==> after.passed == trick.passed && after.played
                == trick.played
            &&& trick.combo_player matches Some(last) ==> after.played.contains(last)
                || trick.passed.contains(last)
            &&& trick.combo_player matches Some(last) ==> (trick.passed.contains(last)
                || trick.played.contains(last) ==> after.played == trick.played)
            &&& forall|s: usize| #[trigger]
                after.played.contains(s) ==> trick.played.contains(s) || trick.combo_player == Some(
                    s,
                )
            &&& forall|s: usize| #[trigger]
                trick.played.contains(s) ==> after.played.contains(s)
            &&& trick.played.no_duplicates() ==> after.played.no_duplicates()
            &&& after.played.len() > trick.played.len() ==> Some(after.played.last())
                == trick.combo_player
        }),
{
    let after = trick.covered(seat, cards, kind);
    if let Some(last) = trick.combo_player {
        if !trick.played.contains(last) && !trick.passed.contains(last) {
            assert(after.played[trick.played.len() as int] == last);
            assert forall|s: usize| #[trigger]
                trick.played.contains(s) implies after.played.contains(s) by {
                let k = choose|k: int| 0 <= k < trick.played.len() && trick.played[k] == s;
                assert(after.played[k] == s);
            }
        }
    }
}

// ---------------------------------------------------------------------------
// Places and points
// ---------------------------------------------------------------------------

/// What a place is worth: ten points for the first, five for the second, none
/// for the third, and fifteen lost for the last.
pub open spec fn worth(place: int) -> int {
    if place == 1 {
        10
    } else if place == 2 {
        5
    } else if place == 3 {
        0
    } else {
        -15
    }
}

/// Whoever puts down all the cards they hold has finished, in the next free
/// place and with what it is worth; whoever keeps a card has not. Nobody else's
/// hand, place or points change.
pub proof fn law_points_for_finishing(
    game: GameModel,
    seat: usize,
    places: Seq<usize>,
    kind: ComboType,
)
    requires
        seat < game.players.len(),
        seat < game.scores.len(),
        !game.players[seat as int].finished,
        places.no_duplicates(),
        forall|k: int|
            0 <= k < places.len() ==> (#[trigger] places[k] as int)
                < game.players[seat as int].hand.len(),
    ensures
        ({
            let after = game.cards_down(seat, places, kind);
            let hand = game.players[seat as int].hand;
            &&& places.len() < hand.len() ==> {
                &&& !after.players[seat as int].finished
                &&& after.scores == game.scores
                &&& after.finished_order == game.finished_order
            }
            &&& places.len() == hand.len() ==> {
                &&& after.players[seat as int].finished
                &&& after.players[seat as int].hand.len() == 0
                &&& after.finished_order == game.finished_order.push(seat)
                &&& game.finished_order.len() == 0 ==> after.scores[seat as int] == 10
                &&& game.finished_order.len() == 1 ==> after.scores[seat as int] == 5
                &&& game.finished_order.len() == 2 ==> after.scores[seat as int] == 0
                &&& game.finished_order.len() == 3 ==> after.scores[seat as int] == -15
            }
            &&& after.scores.len() == game.scores.len()
            &&& after.players.len() == game.players.len()
            &&& forall|i: int|
                0 <= i < game.scores.len() && i != seat ==> #[trigger] after.scores[i]
                    == game.scores[i]
            &&& forall|i: int|
                0 <= i < game.players.len() && i != seat ==> #[trigger] after.players[i]
                    == game.players[i]
        }),
{
    turn::law_taking_conserves_cards(game.players[seat as int].hand, places);
}

/// Everybody's points are what their place is worth: who has not finished has
/// none yet.
pub open spec fn points_by_place(game: GameModel) -> bool {
    &&& game.players.len() == 4
    &&& game.scores.len() == 4
    &&& game.finished_order.no_duplicates()
    &&& forall|k: int|
        0 <= k < game.finished_order.len() ==> (#[trigger] game.finished_order[k]) < 4
            && game.scores[game.finished_order[k] as int] == worth(k + 1)
    &&& forall|i: int|
        0 <= i < 4 ==> ((#[trigger] game.players[i]).finished <==> game.finished_order.contains(
            i as usize,
        ))
    &&& forall|i: int|
        0 <= i < 4 ==> (game.finished_order.contains(i as usize) || #[trigger] game.scores[i] == 0)
}

/// The points of the four seats together.
pub open spec fn sum_of_points(game: GameModel) -> int {
    game.scores[0] + game.scores[1] + game.scores[2] + game.scores[3]
}

proof fn lemma_points_after_cards(
    game: GameModel,
    seat: usize,
    places: Seq<usize>,
    kind: ComboType,
)
    requires
        points_by_place(game),
        seat < 4,
    ensures
        points_by_place(game.cards_down(seat, places, kind)),
{
    let next = game.cards_down(seat, places, kind);
    let old_order = game.finished_order;
    let order = next.finished_order;
    assert(game.players[seat as int].finished <==> old_order.contains(seat as int as usize));
    if game.empties(seat, places) {
        let n = old_order.len() as int;
        assert(order[n] == seat);
        assert forall|s: usize| #[trigger] order.contains(s) <==> old_order.contains(s) || s
            == seat by {
            if old_order.contains(s) {
                let k = choose|k: int| 0 <= k < old_order.len() && old_order[k] == s;
                assert(order[k] == s);
            }
            if order.contains(s) && s != seat {
                let k = choose|k: int| 0 <= k < order.len() && order[k] == s;
                assert(old_order[k] == s);
            }
        }
        assert forall|k: int| 0 <= k < order.len() implies (#[trigger] order[k]) < 4
            && next.scores[order[k] as int] == worth(k + 1) by {
            if k < n {
                assert(old_order[k] < 4 && game.scores[old_order[k] as int] == worth(k + 1));
                assert(old_order.contains(old_order[k]));
                assert(order[k] == old_order[k] && order[k] != seat);
            }
        }
        assert(order.no_duplicates()) by {
            assert forall|a: int, b: int|
                0 <= a < order.len() && 0 <= b < order.len() && a != b implies order[a]
                != order[b] by {
                if a == n {
                    assert(old_order.contains(old_order[b]));
                } else if b == n {
                    assert(old_order.contains(old_order[a]));
                }
            }
        }
    }
    assert forall|i: int| 0 <= i < 4 implies ((#[trigger] next.players[i]).finished
        <==> order.contains(i as usize)) by {
        assert(game.players[i].finished <==> old_order.contains(i as usize));
    }
    assert forall|i: int| 0 <= i < 4 implies (order.contains(i as usize)
        || #[trigger] next.scores[i] == 0) by {
        assert(old_order.contains(i as usize) || game.scores[i] == 0);
    }
}

/// With three seats in order, one is left and it is found.
proof fn lemma_one_left(game: GameModel)
    requires
        points_by_place(game),
        game.finished_order.len() == 3,
    ensures
        game.first_unfinished(0) matches Some(i) && 0 <= i < 4
            && !game.finished_order.contains(i as usize),
{
    reveal_with_fuel(GameModel::first_unfinished, 5);
    let o = game.finished_order;
    assert(game.players[0].finished <==> o.contains(0int as usize));
    assert(game.players[1].finished <==> o.contains(1int as usize));
    assert(game.players[2].finished <==> o.contains(2int as usize));
    assert(game.players[3].finished <==> o.contains(3int as usize));
    if o.contains(0usize) && o.contains(1usize) && o.contains(2usize) && o.contains(3usize) {
        let a = choose|k: int| 0 <= k < o.len() && o[k] == 0usize;
        let b = choose|k: int| 0 <= k < o.len() && o[k] == 1usize;
        let c = choose|k: int| 0 <= k < o.len() && o[k] == 2usize;
        let d = choose|k: int| 0 <= k < o.len() && o[k] == 3usize;
        assert(o[a] == 0 && o[b] == 1 && o[c] == 2 && o[d] == 3);
        assert(false);
    }
}

/// A round is closed once three have finished. The one who is left is last and
/// loses fifteen points; everybody else keeps what their place is worth, and all
/// points together are nothing.
pub proof fn law_round_is_closed_after_the_third(game: GameModel)
    requires
        points_by_place(game),
        game.finished_order.len() == 3,
        game.phase != GamePhase::GameOver,
    ensures
        ({
            let after = game.finalized();
            &&& after.phase == GamePhase::GameOver
            &&& after.finished_order.len() == 4
            &&& after.finished_order.take(3) == game.finished_order
            &&& !game.players[after.finished_order[3] as int].finished
            &&& after.scores[after.finished_order[3] as int] == -15
            &&& forall|k: int|
                0 <= k < 3 ==> after.scores[(#[trigger] game.finished_order[k]) as int]
                    == game.scores[game.finished_order[k] as int]
            &&& sum_of_points(after) == 0
        }),
{
    lemma_one_left(game);
    let i = game.first_unfinished(0).unwrap();
    let after = game.finalized();
    let o = game.finished_order;
    assert(after.finished_order =~= o.push(i as usize));
    assert(after.finished_order.take(3) =~= o);
    assert(game.players[i].finished <==> o.contains(i as usize));
    assert forall|k: int| 0 <= k < 3 implies after.scores[(#[trigger] o[k]) as int]
        == game.scores[o[k] as int] by {
        assert(o.contains(o[k]));
    }
    assert(o[0] < 4 && o[1] < 4 && o[2] < 4);
    assert(o.contains(o[0]) && o.contains(o[1]) && o.contains(o[2]));
    assert(o[0] != o[1] && o[0] != o[2] && o[1] != o[2]);
    let s = after.scores;
    assert(s[o[0] as int] == 10 && s[o[1] as int] == 5 && s[o[2] as int] == 0 && s[i] == -15);
}

/// A round in which fewer than three have finished, or that is over, is not
/// closed.
pub proof fn law_round_is_not_closed_early(game: GameModel)
    requires
        game.phase == GamePhase::GameOver || game.finished_order.len() < 3,
    ensures
        game.finalized() == game,
{
}

/// What holds of points when a move has been settled: everybody has what their
/// place is worth, and when the round is over all points together are nothing,
/// or five less where a bomb has ended it.
pub open spec fn points_in_order(game: GameModel) -> bool {
    if game.phase != GamePhase::GameOver {
        points_by_place(game)
    } else {
        sum_of_points(game) == 0 || (game.trick.combo_type == Some(ComboType::Bomb)
            && sum_of_points(game) == -5)
    }
}

proof fn lemma_points_settled(game: GameModel, skip: bool)
    requires
        points_by_place(game),
        game.sound(),
        game.phase == GamePhase::Playing,
        game.finished_order.len() <= 3,
    ensures
        points_in_order(game.settled(skip)),
{
    if let Some(winner) = game.trick_winner() {
        if game.bomb_parties() is Some {
            rules::law_bomb_places_everyone(game);
        } else {
            let led = if skip {
                game.led_by(winner).skipped()
            } else {
                game.led_by(winner)
            };
            assert(points_by_place(led));
            if led.finished_order.len() == 3 {
                law_round_is_closed_after_the_third(led);
            }
        }
    } else if game.finished_order.len() >= 3 {
        law_round_is_closed_after_the_third(game);
    } else {
        assert(points_by_place(game.moved_on()));
        assert(points_by_place(game.moved_on().skipped()));
    }
}

/// Whatever the player at turn plays, and when they pass: everybody's points
/// stay what their place is worth, and a round that no bomb ends gives and takes
/// the same number of points.
pub proof fn law_points_stay_in_order(game: GameModel, seat: usize, ids: Seq<Seq<char>>)
    requires
        points_by_place(game),
        game.sound(),
        game.phase == GamePhase::Playing,
        game.finished_order.len() < 3,
        game.turn_seq < u32::MAX,
    ensures
        points_in_order(game.played(seat, ids)),
        points_in_order(game.after_pass(seat)),
{
    if game.current_player == seat {
        if let Some(places) = engine::places_of(game.players[seat as int].hand, ids) {
            if game.verdict_on(seat, places).valid {
                let kind = game.kind_at(seat, places);
                lemma_points_after_cards(game, seat, places, kind);
                turn::lemma_cards_down_sound(game, seat, places, kind);
                let noted = game.play_noted(seat, places);
                assert(points_by_place(noted));
                lemma_points_settled(noted, true);
            } else {
                assert(points_by_place(game.played(seat, ids)));
            }
        }
        if game.may_pass(seat) {
            let noted = game.pass_noted(seat);
            assert(points_by_place(noted));
            lemma_points_settled(noted, true);
        }
    }
}

/// The same of a bot's turn.
pub proof fn law_bots_keep_points_in_order(game: GameModel)
    requires
        points_by_place(game),
        game.sound(),
        game.bot_is_up(),
        game.turn_seq < u32::MAX,
    ensures
        points_in_order(game.bot_turn()),
{
    let seat = game.current_player;
    if game.players[seat as int].finished {
        assert(points_by_place(game.moved_on()));
    } else {
        match bot::bot_choice(game, seat) {
            Some(places) => {
                let kind = game.kind_at(seat, places);
                lemma_points_after_cards(game, seat, places, kind);
                turn::lemma_cards_down_sound(game, seat, places, kind);
                let down = game.cards_down(seat, places, kind).bumped();
                assert(points_by_place(down));
                lemma_points_settled(down, false);
            },
            None => {
                let passed = game.passed_by(seat).bumped();
                assert(points_by_place(passed));
                lemma_points_settled(passed, false);
            },
        }
    }
}

/// Whoever plays their last cards is told their place and its points: ten, five
/// or none for the first, second or third. With anything but a bomb these are
/// their points of the round.
pub proof fn law_last_cards_bring_the_points(game: GameModel, seat: usize, ids: Seq<Seq<char>>)
    requires
        points_by_place(game),
        game.sound(),
        game.phase == GamePhase::Playing,
        game.finished_order.len() < 3,
        game.current_player == seat,
        game.turn_seq < u32::MAX,
        !game.players[seat as int].finished,
        game.players[seat as int].hand.len() <= usize::MAX,
        ids.no_duplicates(),
        ids.len() == game.players[seat as int].hand.len(),
        engine::places_of(game.players[seat as int].hand, ids) is Some,
        game.verdict_on(
            seat,
            engine::places_of(game.players[seat as int].hand, ids).unwrap(),
        ).valid,
    ensures
        ({
            let place = game.finished_order.len() + 1;
            let points: i32 = if place == 1 {
                10
            } else if place == 2 {
                5
            } else {
                0
            };
            &&& game.played_events(seat, ids)[0] == (EventModel::PlayerFinished {
                player_id: seat,
                player_name: game.players[seat as int].name,
                position: place as usize,
                score: points,
            })
            &&& game.played(seat, ids).trick.combo_type != Some(ComboType::Bomb)
                ==> game.played(seat, ids).scores[seat as int] == points
        }),
{
    let hand = game.players[seat as int].hand;
    let places = engine::places_of(hand, ids).unwrap();
    engine::lemma_places_of(hand, ids);
    engine::lemma_distinct_places(hand, ids);
    let kind = game.kind_at(seat, places);
    law_points_for_finishing(game, seat, places, kind);
    lemma_points_after_cards(game, seat, places, kind);
    turn::lemma_cards_down_sound(game, seat, places, kind);
    let noted = game.play_noted(seat, places);
    rules::lemma_first_unfinished(noted, 0);
    rules::lemma_first_unfinished(noted.led_by(seat), 0);
    rules::lemma_first_unfinished(noted.led_by(seat).skipped(), 0);
}

// ---------------------------------------------------------------------------
// Moves
// ---------------------------------------------------------------------------

/// The nearest seat behind this one whose player has not finished: so many seats
/// on, with finished players between.
pub open spec fn is_next_up(game: GameModel, seat: usize, steps: int) -> bool {
    &&& 1 <= steps <= 4
    &&& !game.players[seats_on(seat, steps)].finished
    &&& forall|k: int| 1 <= k < steps ==> game.players[#[trigger] seats_on(seat, k)].finished
}

proof fn lemma_next_up(game: GameModel, steps: int)
    requires
        game.players.len() == 4,
        game.current_player < 4,
        is_next_up(game, game.current_player, steps),
    ensures
        game.moved_on().skipped().current_player == seats_on(game.current_player, steps),
        game.moved_on().skipped() == (GameModel {
            current_player: game.moved_on().skipped().current_player,
            ..game
        }),
{
    let next = game.moved_on();
    let seat = game.current_player;
    law_turns_go_round(seat);
    assert forall|k: int| 0 <= k < steps - 1 implies next.players[#[trigger] seats_on(
        next.current_player,
        k,
    )].finished by {
        assert(seats_on(next.current_player, k) == seats_on(seat, k + 1));
    }
    assert(seats_on(next.current_player, steps - 1) == seats_on(seat, steps));
    law_finished_players_are_passed_over(next, steps - 1);
}

/// Whoever passes while somebody else is still in the trick hands the turn to
/// the nearest player behind them who has not finished. The pass is noted, and
/// nothing else at the table changes.
pub proof fn law_passing_hands_the_turn_on(
    game: GameModel,
    seat: usize,
    leader: usize,
    other: int,
    steps: int,
)
    requires
        table_of_four(game),
        seat < 4,
        leader < 4,
        game.current_player == seat,
        game.finished_order.len() < 3,
        game.turn_seq < u32::MAX,
        game.trick.combo_player == Some(leader),
        leader != seat,
        0 <= other < 4,
        other != seat,
        other != leader,
        !is_out(game, other),
        is_next_up(game, seat, steps),
    ensures
        ({
            let after = game.after_pass(seat);
            &&& after.current_player == seats_on(seat, steps)
            &&& after.trick.passed == game.trick.passed.push(seat)
            &&& after.trick.cards == game.trick.cards
            &&& after.trick.combo_type == game.trick.combo_type
            &&& after.trick.combo_player == game.trick.combo_player
            &&& after.trick.played == game.trick.played
            &&& after.players == game.players
            &&& after.scores == game.scores
            &&& after.finished_order == game.finished_order
            &&& after.phase == game.phase
            &&& after.turn_seq == game.turn_seq + 1
        }),
{
    let noted = game.pass_noted(seat);
    assert(noted.players == game.players);
    assert(!is_out(noted, other)) by {
        if noted.trick.passed.contains(other as usize) {
            let k = choose|k: int|
                0 <= k < noted.trick.passed.len() && noted.trick.passed[k] == other as usize;
            assert(game.trick.passed[k] == other as usize);
        }
    }
    law_trick_goes_to_the_last_one_in(noted, leader);
    assert(is_next_up(noted, seat, steps)) by {
        assert forall|k: int| 1 <= k < steps implies noted.players[#[trigger] seats_on(
            seat,
            k,
        )].finished by {}
    }
    lemma_next_up(noted, steps);
}

/// Whoever passes as the last one in a trick gives it to its leader, who leads
/// anew on an empty table; where the leader has finished, the nearest player
/// behind them does.
pub proof fn law_last_pass_gives_the_trick_away(
    game: GameModel,
    seat: usize,
    leader: usize,
    steps: int,
)
    requires
        table_of_four(game),
        seat < 4,
        leader < 4,
        game.current_player == seat,
        game.phase == GamePhase::Playing,
        game.finished_order.len() < 3,
        game.turn_seq < u32::MAX,
        game.trick.combo_player == Some(leader),
        game.trick.combo_type != Some(ComboType::Bomb),
        leader != seat,
        forall|i: int| 0 <= i < 4 && i != seat && i != leader ==> #[trigger] is_out(game, i),
        0 <= steps < 4,
        !game.players[seats_on(leader, steps)].finished,
        forall|k: int| 0 <= k < steps ==> game.players[#[trigger] seats_on(leader, k)].finished,
    ensures
        ({
            let after = game.after_pass(seat);
            &&& after.current_player == seats_on(leader, steps)
            &&& after.trick.cards.len() == 0
            &&& after.trick.combo_type is None
            &&& after.trick.combo_player is None
            &&& after.trick.passed.len() == 0
            &&& after.trick.played.len() == 0
            &&& after.players == game.players
            &&& after.scores == game.scores
            &&& after.finished_order == game.finished_order
            &&& after.phase == GamePhase::Playing
        }),
{
    let noted = game.pass_noted(seat);
    assert(noted.players == game.players);
    assert forall|i: int| 0 <= i < 4 && i != leader implies #[trigger] is_out(noted, i) by {
        if i == seat {
            assert(noted.trick.passed[game.trick.passed.len() as int] == seat);
        } else {
            assert(is_out(game, i));
            if game.trick.passed.contains(i as usize) {
                let k = choose|k: int|
                    0 <= k < game.trick.passed.len() && game.trick.passed[k] == i as usize;
                assert(noted.trick.passed[k] == i as usize);
            }
        }
    }
    law_trick_goes_to_the_last_one_in(noted, leader);
    let led = noted.led_by(leader);
    assert forall|k: int| 0 <= k < steps implies led.players[#[trigger] seats_on(
        led.current_player,
        k,
    )].finished by {}
    law_finished_players_are_passed_over(led, steps);
}

/// Nobody passes out of turn, on an empty table, or on their own cards.
pub proof fn law_no_pass(game: GameModel, seat: usize)
    requires
        game.finished_order.len() < 3,
        game.current_player != seat || game.trick.combo_player is None || game.trick.combo_player
            == Some(seat),
    ensures
        game.after_pass(seat) == game,
{
}

/// Cards that are played while somebody else is still in the trick lie on the
/// table as their player's; the turn goes to the nearest player behind them who
/// has not finished. Left out is who finishes third, with whom the round ends.
pub proof fn law_playing_hands_the_turn_on(
    game: GameModel,
    seat: usize,
    ids: Seq<Seq<char>>,
    other: int,
    steps: int,
)
    requires
        table_of_four(game),
        seat < 4,
        game.current_player == seat,
        game.finished_order.len() < 2,
        game.turn_seq < u32::MAX,
        game.players[seat as int].hand.len() <= usize::MAX,
        engine::places_of(game.players[seat as int].hand, ids) is Some,
        game.verdict_on(
            seat,
            engine::places_of(game.players[seat as int].hand, ids).unwrap(),
        ).valid,
        0 <= other < 4,
        other != seat,
        !game.players[other].finished,
        game.trick.combo_player is Some || !game.trick.passed.contains(other as usize),
        1 <= steps < 4,
        is_next_up(game, seat, steps),
    ensures
        ({
            let after = game.played(seat, ids);
            let places = engine::places_of(game.players[seat as int].hand, ids).unwrap();
            &&& after.current_player == seats_on(seat, steps)
            &&& after.trick.combo_player == Some(seat)
            &&& after.trick.combo_type == combo::combo_type_of(after.trick.cards)
            &&& after.trick.cards.len() == ids.len()
            &&& forall|k: int|
                0 <= k < ids.len() ==> (#[trigger] after.trick.cards[k]).id() == ids[k]
            &&& after.phase == game.phase
            &&& after.turn_seq == game.turn_seq + 1
            &&& forall|i: int|
                0 <= i < 4 && i != seat ==> #[trigger] after.players[i] == game.players[i]
        }),
{
    let hand = game.players[seat as int].hand;
    let places = engine::places_of(hand, ids).unwrap();
    engine::lemma_places_of(hand, ids);
    let noted = game.play_noted(seat, places);
    assert(!is_out(noted, other));
    assert(table_of_four(noted)) by {
        assert forall|i: int| 0 <= i < 4 implies (#[trigger] noted.players[i]).id == i by {
            assert(game.players[i].id == i);
        }
    }
    law_trick_goes_to_the_last_one_in(noted, seat);
    assert(is_next_up(noted, seat, steps)) by {
        assert forall|k: int| 1 <= k < steps implies noted.players[#[trigger] seats_on(
            seat,
            k,
        )].finished by {}
    }
    lemma_next_up(noted, steps);
}

/// A play that breaks the rules leaves the table as it is: it only goes into the
/// log. Ids that name no card of the hand, and plays out of turn, do nothing.
pub proof fn law_refused_plays_change_nothing(game: GameModel, seat: usize, ids: Seq<Seq<char>>)
    requires
        game.finished_order.len() < 3,
        game.current_player == seat ==> (engine::places_of(
            game.players[seat as int].hand,
            ids,
        ) matches Some(places) ==> !game.verdict_on(seat, places).valid),
    ensures
        game.played(seat, ids) == (GameModel { log: game.played(seat, ids).log, ..game }),
        game.played_events(seat, ids).len() == 0,
{
}

// ---------------------------------------------------------------------------
// Bombs
// ---------------------------------------------------------------------------

/// A bomb that takes its trick ends the round: the bomber is first with ten
/// points, the last other player whose cards it covered is last and loses
/// fifteen, and the other two get nothing.
pub proof fn law_bombs_end_the_round(game: GameModel, bomber: usize, victim: usize, at: int)
    requires
        game.players.len() == 4,
        game.scores.len() == 4,
        game.phase != GamePhase::GameOver,
        game.trick.combo_type == Some(ComboType::Bomb),
        game.trick.combo_player == Some(bomber),
        bomber < 4,
        victim < 4,
        victim != bomber,
        0 <= at < game.trick.played.len(),
        game.trick.played[at] == victim,
        forall|k: int|
            at < k < game.trick.played.len() ==> #[trigger] game.trick.played[k] == bomber,
    ensures
        ({
            let after = game.bombed();
            &&& after.phase == GamePhase::GameOver
            &&& after.scores.len() == 4
            &&& after.scores[bomber as int] == 10
            &&& after.scores[victim as int] == -15
            &&& forall|i: int|
                0 <= i < 4 && i != bomber && i != victim ==> #[trigger] after.scores[i] == 0
            &&& forall|i: int| 0 <= i < 4 ==> (#[trigger] after.players[i]).finished
            &&& forall|i: int|
                0 <= i < 4 ==> (#[trigger] after.players[i]).hand == game.players[i].hand
            &&& after.finished_order.len() == 4
            &&& after.finished_order.no_duplicates()
            &&& after.finished_order[0] == bomber
            &&& after.finished_order[1] < after.finished_order[2] < 4
            &&& after.finished_order[3] == victim
        }),
{
    lemma_victim(game.trick.played, bomber, victim, at, game.trick.played.len() as int);
    rules::law_bomb_places_everyone(game);
}

proof fn lemma_victim(played: Seq<usize>, bomber: usize, victim: usize, at: int, n: int)
    requires
        0 <= at < n <= played.len(),
        victim < 4,
        victim != bomber,
        played[at] == victim,
        forall|k: int| at < k < played.len() ==> #[trigger] played[k] == bomber,
    ensures
        rules::last_other(played, bomber, n) == Some(victim),
    decreases n,
{
    if at < n - 1 {
        assert(played[n - 1] == bomber);
        lemma_victim(played, bomber, victim, at, n - 1);
    }
}

/// Only a bomb that has covered somebody else's cards ends a round.
pub proof fn law_no_bomb_no_end(game: GameModel)
    requires
        game.phase == GamePhase::GameOver || game.trick.combo_type != Some(ComboType::Bomb)
            || game.trick.combo_player is None || forall|k: int|
            0 <= k < game.trick.played.len() ==> Some(#[trigger] game.trick.played[k])
                == game.trick.combo_player,
    ensures
        game.bombed() == game,
        game.bomb_parties() is None,
{
    if let Some(bomber) = game.trick.combo_player {
        if forall|k: int|
            0 <= k < game.trick.played.len() ==> Some(#[trigger] game.trick.played[k])
                == game.trick.combo_player {
            lemma_no_victim(game.trick.played, bomber, game.trick.played.len() as int);
        }
    }
}

proof fn lemma_no_victim(played: Seq<usize>, bomber: usize, n: int)
    requires
        n <= played.len(),
        forall|k: int| 0 <= k < played.len() ==> #[trigger] played[k] == bomber,
    ensures
        rules::last_other(played, bomber, n) is None,
    decreases n,
{
    if n > 0 {
        assert(played[n - 1] == bomber);
        lemma_no_victim(played, bomber, n - 1);
    }
}

/// When the last of the others passes on a bomb, it ends the round.
pub proof fn law_last_pass_on_a_bomb(
    game: GameModel,
    seat: usize,
    bomber: usize,
    victim: usize,
    at: int,
)
    requires
        table_of_four(game),
        game.scores.len() == 4,
        seat < 4,
        bomber < 4,
        game.current_player == seat,
        game.phase == GamePhase::Playing,
        game.finished_order.len() < 3,
        game.trick.combo_type == Some(ComboType::Bomb),
        game.trick.combo_player == Some(bomber),
        bomber != seat,
        forall|i: int| 0 <= i < 4 && i != seat && i != bomber ==> #[trigger] is_out(game, i),
        victim < 4,
        victim != bomber,
        0 <= at < game.trick.played.len(),
        game.trick.played[at] == victim,
        forall|k: int|
            at < k < game.trick.played.len() ==> #[trigger] game.trick.played[k] == bomber,
    ensures
        ({
            let after = game.after_pass(seat);
            &&& after.phase == GamePhase::GameOver
            &&& after.scores[bomber as int] == 10
            &&& after.scores[victim as int] == -15
            &&& after.finished_order[0] == bomber
            &&& after.finished_order[3] == victim
        }),
{
    let noted = game.pass_noted(seat);
    assert(noted.players == game.players);
    assert forall|i: int| 0 <= i < 4 && i != bomber implies #[trigger] is_out(noted, i) by {
        if i == seat {
            assert(noted.trick.passed[game.trick.passed.len() as int] == seat);
        } else {
            assert(is_out(game, i));
            if game.trick.passed.contains(i as usize) {
                let k = choose|k: int|
                    0 <= k < game.trick.passed.len() && game.trick.passed[k] == i as usize;
                assert(noted.trick.passed[k] == i as usize);
            }
        }
    }
    law_trick_goes_to_the_last_one_in(noted, bomber);
    lemma_victim(game.trick.played, bomber, victim, at, game.trick.played.len() as int);
    law_bombs_end_the_round(noted, bomber, victim, at);
}

// ---------------------------------------------------------------------------
// The match
// ---------------------------------------------------------------------------

/// The match is decided as the totals say: won by the lowest seat whose total
/// has reached the target, and by nobody where none has.
pub open spec fn decided_by_totals(game: GameModel) -> bool {
    match game.game_winner {
        Some(w) => {
            &&& (w as int) < game.total_scores.len()
            &&& game.total_scores[w as int] >= game.winning_point
            &&& forall|i: int| 0 <= i < w ==> #[trigger] game.total_scores[i] < game.winning_point
        },
        None => forall|i: int|
            0 <= i < game.total_scores.len() ==> #[trigger] game.total_scores[i]
                < game.winning_point,
    }
}

proof fn lemma_first_reaching(totals: Seq<i32>, target: u32, from: int)
    requires
        0 <= from <= totals.len() <= usize::MAX,
        forall|i: int| 0 <= i < from ==> #[trigger] totals[i] < target,
    ensures
        match rules::first_reaching(totals, target, from) {
            Some(w) => {
                &&& (w as int) < totals.len()
                &&& totals[w as int] >= target
                &&& forall|i: int| 0 <= i < w ==> #[trigger] totals[i] < target
            },
            None => forall|i: int| 0 <= i < totals.len() ==> #[trigger] totals[i] < target,
        },
    decreases totals.len() - from,
{
    if from < totals.len() && totals[from] < target {
        lemma_first_reaching(totals, target, from + 1);
    }
}

/// The end of a round decides the match by the totals, unless it was won before.
/// Whether it ends with the third to finish or with a bomb, every seat's points
/// are added to its total once, and the rounds are counted.
pub proof fn law_rounds_add_up(game: GameModel, bombed: bool, seat: int)
    requires
        game.players.len() == 4,
        game.scores.len() == 4,
        game.total_scores.len() == 4,
        game.round < usize::MAX,
        game.phase != GamePhase::GameOver,
        bombed ==> game.bomb_parties() is Some,
        !bombed ==> game.finished_order.len() >= 3,
        0 <= seat < 4,
        forall|i: int|
            0 <= i < 4 ==> -1000000000 <= #[trigger] game.total_scores[i] <= 1000000000,
        forall|i: int| 0 <= i < 4 ==> -1000000000 <= #[trigger] game.scores[i] <= 1000000000,
    ensures
        ({
            let after = if bombed {
                game.bombed()
            } else {
                game.finalized()
            };
            &&& after.phase == GamePhase::GameOver
            &&& after.round == game.round + 1
            &&& after.total_scores.len() == 4
            &&& after.total_scores[seat] == game.total_scores[seat] + after.scores[seat]
            &&& game.game_winner is None ==> decided_by_totals(after)
            &&& game.game_winner is Some ==> after.game_winner == game.game_winner
            &&& after.winning_point == game.winning_point
        }),
{
    let after = if bombed {
        game.bombed()
    } else {
        game.finalized()
    };
    rules::lemma_first_unfinished(game, 0);
    lemma_first_reaching(after.total_scores, game.winning_point, 0);
}

/// The game is marked as over once three have finished, and not before. The one
/// player left at the table of four loses fifteen points; nobody else's points
/// change.
pub proof fn law_ending_a_game(game: GameModel, left: int)
    requires
        game.players.len() == 4,
        game.scores.len() == 4,
        0 <= left < 4,
        !game.players[left].finished,
        forall|i: int| 0 <= i < 4 && i != left ==> (#[trigger] game.players[i]).finished,
    ensures
        game.finished_order.len() < 3 ==> game.ended() == game,
        game.finished_order.len() >= 3 ==> {
            &&& game.ended().phase == GamePhase::GameOver
            &&& game.ended().scores.len() == 4
            &&& game.ended().scores[left] == -15
            &&& forall|i: int|
                0 <= i < 4 && i != left ==> #[trigger] game.ended().scores[i] == game.scores[i]
            &&& game.ended().total_scores == game.total_scores
            &&& game.ended().players == game.players
        },
{
    reveal_with_fuel(GameModel::first_unfinished, 5);
    if left != 0 {
        assert(game.players[0].finished);
    }
    if left != 1 {
        assert(game.players[1].finished);
    }
    if left != 2 {
        assert(game.players[2].finished);
    }
}

/// Totals that are missing are nothing: padding keeps every entry and fills up
/// with zeros to one for each seat.
pub proof fn law_missing_totals_are_nothing(scores: Seq<i32>, n: nat, i: int)
    ensures
        state::padded(scores, n).len() == (if scores.len() >= n {
            scores.len()
        } else {
            n
        }),
        0 <= i < scores.len() ==> state::padded(scores, n)[i] == scores[i],
        scores.len() <= i < n ==> state::padded(scores, n)[i] == 0,
{
}

/// How many are out of a trick is counted only while somebody has led it.
pub proof fn law_who_is_out(game: GameModel)
    ensures
        game.trick.combo_player is None ==> game.bystanders() == 0,
        game.trick.combo_player matches Some(leader) ==> game.bystanders() == game.players.filter(
            |p: PlayerModel| p.id != leader && (p.finished || game.trick.passed.contains(p.id)),
        ).len(),
{
    if let Some(leader) = game.trick.combo_player {
        law_bystanders_counted(game.players, leader, game.trick.passed);
        let passed = game.trick.passed;
        let f = |p: PlayerModel| p.id != leader && (p.finished || passed.contains(p.id));
        let g = |p: PlayerModel|
            p.id != leader && (p.finished || game.trick.passed.contains(p.id));
        assert(f =~= g);
    }
}

/// What is played is measured by what lies on the table, if somebody has led, and
/// has the kind that its cards make.
pub proof fn law_plays_are_measured_by_the_table(game: GameModel, seat: usize, places: Seq<usize>)
    ensures
        ({
            let hand = game.players[seat as int].hand;
            let cards = Seq::new(places.len(), |k: int| hand[places[k] as int]);
            let table = if game.trick.combo_player is Some {
                combo::combo_of(game.trick.cards)
            } else {
                None
            };
            &&& game.verdict_on(seat, places) == rules::verdict(cards, table)
            &&& combo::combo_type_of(cards) is Some ==> Some(game.kind_at(seat, places))
                == combo::combo_type_of(cards)
        }),
{
    let hand = game.players[seat as int].hand;
    assert(bot::cards_at(hand, places) =~= Seq::new(
        places.len(),
        |k: int| hand[places[k] as int],
    ));
}

/// Cards are found by their ids: all of them where each id names a card of the
/// hand, and none where one does not.
pub proof fn law_cards_are_found_by_id(hand: Seq<Card>, ids: Seq<Seq<char>>)
    requires
        hand.len() <= usize::MAX,
    ensures
        engine::places_of(hand, ids) is Some <==> forall|k: int|
            0 <= k < ids.len() ==> exists|i: int|
                0 <= i < hand.len() && (#[trigger] hand[i]).id() == #[trigger] ids[k],
        engine::places_of(hand, ids) matches Some(places) ==> places.len() == ids.len()
            && forall|k: int|
            0 <= k < ids.len() ==> (#[trigger] places[k] as int) < hand.len()
                && hand[places[k] as int].id() == ids[k],
    decreases ids.len(),
{
    engine::lemma_places_of(hand, ids);
    if ids.len() > 0 {
        let rest = ids.drop_last();
        law_cards_are_found_by_id(hand, rest);
        engine::lemma_place_of_id(hand, ids.last(), 0);
        if engine::places_of(hand, ids) is Some {
            let places = engine::places_of(hand, ids).unwrap();
            assert forall|k: int| 0 <= k < ids.len() implies exists|i: int|
                0 <= i < hand.len() && (#[trigger] hand[i]).id() == #[trigger] ids[k] by {
                assert((places[k] as int) < hand.len());
                assert(hand[places[k] as int].id() == ids[k]);
            }
        }
        if forall|k: int|
            0 <= k < ids.len() ==> exists|i: int|
                0 <= i < hand.len() && (#[trigger] hand[i]).id() == #[trigger] ids[k] {
            assert forall|k: int| 0 <= k < rest.len() implies exists|i: int|
                0 <= i < hand.len() && (#[trigger] hand[i]).id() == #[trigger] rest[k] by {
                assert(ids[k] == rest[k]);
            }
            assert(ids[ids.len() - 1] == ids.last());
        }
    }
}

/// A move after three have finished only closes the round.
pub proof fn law_late_moves_close_the_round(game: GameModel, seat: usize, ids: Seq<Seq<char>>)
    requires
        game.current_player == seat,
        game.finished_order.len() >= 3,
    ensures
        game.played(seat, ids) == game.finalized(),
        game.after_pass(seat) == game.finalized(),
        game.phase == GamePhase::GameOver ==> game.played(seat, ids) == game
            && game.played_events(seat, ids).len() == 0,
        game.phase != GamePhase::GameOver ==> game.played_events(seat, ids) == seq![
            EventModel::GameOver {
                final_scores: game.finalized().scores,
                finished_order: game.finalized().finished_order,
            },
        ] && game.pass_events(seat) == game.played_events(seat, ids),
{
}

} // verus!
