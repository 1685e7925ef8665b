//! The bots at the table, as those who play against them know them.
use crate::game::answers;
use crate::game::bot;
use crate::game::bot::FoundModel;
use crate::game::card;
use crate::game::card::Card;
use crate::game::card::Rank;
use crate::game::combo;
use crate::game::combo::ComboType;
use crate::game::engine;
use crate::game::rulebook;
use crate::game::rules;
use crate::game::state::GameModel;
use crate::game::state::GamePhase;
use crate::game::turn;
use vstd::prelude::*;

verus! {

proof fn lemma_rank_places(hand: Seq<Card>, rank: Rank, n: int)
    requires
        0 <= n <= hand.len() <= usize::MAX,
    ensures
        ({
            let places = bot::rank_places(hand, rank.index(), n);
            &&& forall|i: usize| #[trigger]
                places.contains(i) <==> i < n && hand[i as int].rank == rank
            &&& forall|a: int, b: int| 0 <= a < b < places.len() ==> places[a] < places[b]
        }),
    decreases n,
{
    let places = bot::rank_places(hand, rank.index(), n);
    if n > 0 {
        lemma_rank_places(hand, rank, n - 1);
        let before = bot::rank_places(hand, rank.index(), n - 1);
        let last = (n - 1) as usize;
        rulebook::law_order_of_ranks_and_suits(rank, hand[n - 1].suit);
        rulebook::law_order_of_ranks_and_suits(hand[n - 1].rank, hand[n - 1].suit);
        assert(hand[n - 1].rank.index() == rank.index() <==> hand[n - 1].rank == rank);
        assert forall|k: int| 0 <= k < before.len() implies #[trigger] before[k] < n - 1 by {
            assert(before.contains(before[k]));
        }
        if hand[n - 1].rank == rank {
            assert(places == before.push(last));
            assert forall|i: usize| #[trigger]
                places.contains(i) <==> i < n && hand[i as int].rank == rank by {
                if i == last {
                    assert(places[before.len() as int] == last);
                }
                if before.contains(i) {
                    let k = choose|k: int| 0 <= k < before.len() && before[k] == i;
                    assert(places[k] == i);
                }
                if places.contains(i) && i != last {
                    let k = choose|k: int| 0 <= k < places.len() && places[k] == i;
                    assert(before[k] == i);
                }
            }
        } else {
            assert(places == before);
        }
    }
}

/// While threes are discarded, a bot gives up the threes in its hand, all of
/// them and nothing else; without a three it does nothing.
pub proof fn law_bots_discard_their_threes(game: GameModel, bot_id: usize)
    requires
        (bot_id as int) < game.players.len(),
        game.phase == GamePhase::ThreeDiscard,
        game.players[bot_id as int].hand.len() <= usize::MAX,
    ensures
        ({
            let hand = game.players[bot_id as int].hand;
            match bot::bot_choice(game, bot_id) {
                Some(places) => {
                    &&& places.len() > 0
                    &&& forall|i: usize| #[trigger]
                        places.contains(i) <==> i < hand.len() && hand[i as int].rank == Rank::Three
                    &&& forall|a: int, b: int| 0 <= a < b < places.len() ==> places[a] < places[b]
                },
                None => forall|i: int|
                    0 <= i < hand.len() ==> (#[trigger] hand[i]).rank != Rank::Three,
            }
        }),
{
    let hand = game.players[bot_id as int].hand;
    lemma_rank_places(hand, Rank::Three, hand.len() as int);
    let places = bot::rank_places(hand, 0, hand.len() as int);
    assert(Rank::Three.index() == 0);
    if places.len() == 0 {
        assert forall|i: int| 0 <= i < hand.len() implies (#[trigger] hand[i]).rank
            != Rank::Three by {
            assert(!places.contains(i as usize));
        }
    }
}

/// Places of a hand, each once and in order.
pub open spec fn places_in(hand: Seq<Card>, places: Seq<usize>) -> bool {
    &&& places.len() > 0
    &&& forall|k: int| 0 <= k < places.len() ==> (#[trigger] places[k] as int) < hand.len()
    &&& forall|a: int, b: int| 0 <= a < b < places.len() ==> places[a] < places[b]
}

/// The cards of a hand at these places, one by one.
pub open spec fn at_places(hand: Seq<Card>, places: Seq<usize>) -> Seq<Card> {
    Seq::new(places.len(), |k: int| hand[places[k] as int])
}

/// Ranks go up through the hand and, within a rank, suits do.
pub open spec fn held_in_order(hand: Seq<Card>) -> bool {
    forall|a: int, b: int|
        0 <= a < b < hand.len() ==> {
            ||| (#[trigger] hand[a]).rank.index() < (#[trigger] hand[b]).rank.index()
            ||| hand[a].rank == hand[b].rank && hand[a].suit.index() < hand[b].suit.index()
        }
}

proof fn lemma_held_in_order(hand: Seq<Card>)
    requires
        held_in_order(hand),
    ensures
        answers::in_order(hand),
        hand.len() <= usize::MAX,
{
    assert forall|a: int, b: int| 0 <= a < b < hand.len() implies (#[trigger] hand[a]).key() < (
    #[trigger] hand[b]).key() by {}
    answers::lemma_hand_size(hand);
}

/// A bot answers whenever it can: where any cards of its hand may be played on
/// what lies there, it plays, and by the rules. Where it passes, none may.
pub proof fn law_bots_answer_when_they_can(game: GameModel, bot_id: usize, places: Seq<usize>)
    requires
        (bot_id as int) < game.players.len(),
        game.phase == GamePhase::Playing,
        held_in_order(game.players[bot_id as int].hand),
        game.trick.combo_player is Some,
        game.trick.combo_type is Some,
        combo::combo_of(game.trick.cards) is Some,
        places_in(game.players[bot_id as int].hand, places),
        rules::verdict(
            at_places(game.players[bot_id as int].hand, places),
            combo::combo_of(game.trick.cards),
        ).valid,
    ensures
        bot::bot_choice(game, bot_id) matches Some(chosen) && places_in(
            game.players[bot_id as int].hand,
            chosen,
        ) && rules::verdict(
            at_places(game.players[bot_id as int].hand, chosen),
            combo::combo_of(game.trick.cards),
        ).valid,
{
    let hand = game.players[bot_id as int].hand;
    let table = combo::combo_of(game.trick.cards).unwrap();
    lemma_held_in_order(hand);
    let cards = at_places(hand, places);
    assert(cards =~= bot::cards_at(hand, places));
    rules::law_verdict_explains(cards, Some(table));
    assert(combo::combo_of(cards) is Some);
    let g = FoundModel { indices: places, combo: combo::combo_of(cards).unwrap() };
    assert(g.is_in(hand));
    answers::law_answer_is_lowest(hand, table, g);
    bot::law_bot_plays_by_the_rules(game, bot_id);
    let chosen = bot::bot_choice(game, bot_id).unwrap();
    assert(at_places(hand, chosen) =~= bot::cards_at(hand, chosen));
}

/// A bot that leads plays something whenever it holds a card, by the rules, and
/// never a bomb.
pub proof fn law_bots_lead(game: GameModel, bot_id: usize)
    requires
        (bot_id as int) < game.players.len(),
        game.phase == GamePhase::Playing,
        game.trick.combo_player is None,
        0 < game.players[bot_id as int].hand.len() <= usize::MAX,
    ensures
        bot::bot_choice(game, bot_id) matches Some(chosen) && places_in(
            game.players[bot_id as int].hand,
            chosen,
        ) && rules::verdict(at_places(game.players[bot_id as int].hand, chosen), None).valid
            && combo::combo_type_of(at_places(game.players[bot_id as int].hand, chosen)) != Some(
            ComboType::Bomb,
        ),
{
    let hand = game.players[bot_id as int].hand;
    bot::law_bot_plays_by_the_rules(game, bot_id);
    bot::lemma_first_single(hand);
    bot::law_weakest(hand, bot::combos_in(hand));
    bot::law_free_choice_never_bombs(hand);
    let chosen = bot::bot_choice(game, bot_id).unwrap();
    assert(at_places(hand, chosen) =~= bot::cards_at(hand, chosen));
    bot::law_combos_are_in_hand(hand);
    let f = bot::weakest(hand, bot::combos_in(hand)).unwrap();
    let k = choose|k: int| 0 <= k < bot::combos_in(hand).len() && bot::combos_in(hand)[k] == f;
    assert(bot::combos_in(hand)[k].is_in(hand));
}

/// What a kind of combination weighs beside its rank when a bot looks for the
/// weakest: pairs little, then triples, straights by their length, full houses
/// and fours; singles are kept for later, and bombs for last.
pub open spec fn kind_weight(f: FoundModel) -> int {
    match f.combo.combo_type {
        ComboType::Pair => 2,
        ComboType::Triple => 3,
        ComboType::Straight => f.indices.len() as int,
        ComboType::FullHouse => 50,
        ComboType::FourKind => 100,
        ComboType::Single => 900,
        ComboType::Bomb => 9000,
    }
}

/// Of two combinations the strength differs by ten for each rank between those
/// that decide, and by what their kinds weigh.
pub proof fn law_strength_by_rank_and_kind(hand: Seq<Card>, f: FoundModel, g: FoundModel)
    requires
        f.is_in(hand),
        g.is_in(hand),
    ensures
        f.strength(hand) - g.strength(hand) == 10 * (f.combo.main_rank() - g.combo.main_rank())
            + kind_weight(f) - kind_weight(g),
{
    answers::lemma_strength_by_rank(hand, f);
    answers::lemma_strength_by_rank(hand, g);
    card::lemma_sorted_cards(bot::cards_at(hand, f.indices));
    card::lemma_sorted_cards(bot::cards_at(hand, g.indices));
}

/// A pair, triple, straight, full house or four is played before any single, and
/// a single before any bomb.
pub proof fn law_singles_late_bombs_last(hand: Seq<Card>, f: FoundModel, g: FoundModel)
    requires
        f.is_in(hand),
        g.is_in(hand),
        g.combo.combo_type == ComboType::Single || g.combo.combo_type == ComboType::Bomb,
        f.combo.combo_type != ComboType::Bomb,
        f.combo.combo_type == ComboType::Single ==> g.combo.combo_type == ComboType::Bomb,
    ensures
        f.strength(hand) < g.strength(hand),
{
    answers::lemma_strength_by_rank(hand, f);
    answers::lemma_strength_by_rank(hand, g);
    card::lemma_sorted_cards(bot::cards_at(hand, f.indices));
    card::lemma_sorted_cards(bot::cards_at(hand, g.indices));
    answers::lemma_rank_with_count(f.combo.cards, 3, 0);
    answers::lemma_rank_with_count(f.combo.cards, 4, 0);
    answers::lemma_rank_with_count(g.combo.cards, 3, 0);
    answers::lemma_rank_with_count(g.combo.cards, 4, 0);
}

/// For a player whose time has run out the lowest card that may be played alone
/// is played, and nothing where none may.
pub proof fn law_idle_players_play_low(game: GameModel, seat: usize)
    requires
        (seat as int) < game.players.len(),
    ensures
        ({
            let hand = game.players[seat as int].hand;
            let table = if game.trick.combo_player is Some {
                combo::combo_of(game.trick.cards)
            } else {
                None
            };
            match turn::idle_choice(game, seat) {
                Some(c) => {
                    &&& hand.contains(c)
                    &&& rules::verdict(seq![c], table).valid
                    &&& forall|k: int|
                        0 <= k < hand.len() && rules::verdict(
                            seq![#[trigger] hand[k]],
                            table,
                        ).valid ==> c.rank.index() < hand[k].rank.index() || (c.rank
                            == hand[k].rank && c.suit.index() <= hand[k].suit.index())
                },
                None => forall|k: int|
                    0 <= k < hand.len() ==> !rules::verdict(
                        seq![#[trigger] hand[k]],
                        table,
                    ).valid,
            }
        }),
{
    let hand = game.players[seat as int].hand;
    let table = bot::table_of(game);
    turn::law_idle_choice(hand, table, hand.len() as int);
    match turn::idle_choice(game, seat) {
        Some(c) => {
            assert forall|k: int|
                0 <= k < hand.len() && rules::verdict(
                    seq![#[trigger] hand[k]],
                    table,
                ).valid implies c.rank.index() < hand[k].rank.index() || (c.rank == hand[k].rank
                && c.suit.index() <= hand[k].suit.index()) by {
                assert(turn::single_fits(hand[k], table));
                rulebook::law_order_of_ranks_and_suits(c.rank, c.suit);
                rulebook::law_order_of_ranks_and_suits(hand[k].rank, hand[k].suit);
            }
        },
        None => {
            assert forall|k: int| 0 <= k < hand.len() implies !rules::verdict(
                seq![#[trigger] hand[k]],
                table,
            ).valid by {
                assert(!turn::single_fits(hand[k], table));
            }
        },
    }
}

// ---------------------------------------------------------------------------
// Turns
// ---------------------------------------------------------------------------

/// The ids of the cards at these places of a hand.
pub open spec fn ids_at(hand: Seq<Card>, places: Seq<usize>) -> Seq<Seq<char>> {
    Seq::new(places.len(), |k: int| hand[places[k] as int].id())
}

proof fn lemma_found_by_id(hand: Seq<Card>, at: usize)
    requires
        held_in_order(hand),
        at < hand.len() <= usize::MAX,
    ensures
        engine::place_of_id(hand, hand[at as int].id(), 0) == Some(at),
{
    let id = hand[at as int].id();
    engine::lemma_place_of_id(hand, id, 0);
    let found = engine::place_of_id(hand, id, 0).unwrap();
    card::law_card_id_injective(hand[found as int], hand[at as int]);
}

proof fn lemma_found_by_ids(hand: Seq<Card>, places: Seq<usize>)
    requires
        held_in_order(hand),
        hand.len() <= usize::MAX,
        forall|k: int| 0 <= k < places.len() ==> (#[trigger] places[k] as int) < hand.len(),
    ensures
        engine::places_of(hand, ids_at(hand, places)) == Some(places),
    decreases places.len(),
{
    let ids = ids_at(hand, places);
    if places.len() > 0 {
        let rest = places.drop_last();
        assert forall|k: int| 0 <= k < rest.len() implies (#[trigger] rest[k] as int)
            < hand.len() by {
            assert(rest[k] == places[k]);
        }
        lemma_found_by_ids(hand, rest);
        assert(ids.drop_last() =~= ids_at(hand, rest));
        assert((places[places.len() - 1] as int) < hand.len());
        lemma_found_by_id(hand, places.last());
        assert(places =~= rest.push(places.last()));
    } else {
        assert(places =~= Seq::<usize>::empty());
    }
}

/// A bot moves as a player would who plays the cards that it chooses, or passes
/// where it chooses none: the table is the same afterwards, but for the log, as
/// long as the round goes on.
pub proof fn law_bots_move_like_players(game: GameModel)
    requires
        game.sound(),
        game.bot_is_up(),
        game.turn_seq < u32::MAX,
        !game.players[game.current_player as int].finished,
        held_in_order(game.players[game.current_player as int].hand),
        game.one_bot_turn().phase == GamePhase::Playing,
    ensures
        ({
            let seat = game.current_player;
            let hand = game.players[seat as int].hand;
            match bot::bot_choice(game, seat) {
                Some(places) => game.one_bot_turn() == (GameModel {
                    log: game.log,
                    ..game.played(seat, ids_at(hand, places))
                }),
                None => game.trick.combo_player is Some && game.trick.combo_player != Some(seat)
                    ==> game.one_bot_turn() == (GameModel {
                    log: game.log,
                    ..game.after_pass(seat)
                }),
            }
        }),
{
    let seat = game.current_player;
    let hand = game.players[seat as int].hand;
    lemma_held_in_order(hand);
    bot::law_bot_plays_by_the_rules(game, seat);
    match bot::bot_choice(game, seat) {
        Some(places) => {
            lemma_found_by_ids(hand, places);
            let kind = game.kind_at(seat, places);
            let down = game.cards_down(seat, places, kind).bumped();
            let noted = game.play_noted(seat, places);
            assert(down == (GameModel { log: game.log, ..noted }));
            turn::lemma_cards_down_sound(game, seat, places, kind);
            lemma_settled_alike(down, noted);
        },
        None => {
            let down = game.passed_by(seat).bumped();
            let noted = game.pass_noted(seat);
            assert(down == (GameModel { log: game.log, ..noted }));
            lemma_settled_alike(down, noted);
        },
    }
}

/// Settling does not read the log, and skipping can come before or after it as
/// long as the round goes on.
proof fn lemma_settled_alike(down: GameModel, noted: GameModel)
    requires
        down == (GameModel { log: down.log, ..noted }),
        down.sound(),
        down.settled(false).phase == GamePhase::Playing,
        down.phase == GamePhase::Playing,
    ensures
        down.settled(false).skipped() == (GameModel { log: down.log, ..noted.settled(true) }),
{
    assert(down.trick_winner() == noted.trick_winner());
    assert(down.bomb_parties() == noted.bomb_parties());
    if let Some(winner) = down.trick_winner() {
        if down.bomb_parties() is None {
            let led = down.led_by(winner);
            assert(led.finished_order.len() < 3);
            lemma_same_active(led, noted.led_by(winner), led.current_player, 4);
        }
    } else {
        assert(down.finished_order.len() < 3);
        lemma_same_active(down.moved_on(), noted.moved_on(), down.moved_on().current_player, 4);
    }
}

proof fn lemma_same_active(a: GameModel, b: GameModel, seat: usize, steps: nat)
    requires
        a.players == b.players,
    ensures
        a.active_from(seat, steps) == b.active_from(seat, steps),
    decreases steps,
{
    if steps > 0 {
        lemma_same_active(a, b, rules::seat_after(seat), (steps - 1) as nat);
    }
}

/// Bots play one after the other until no bot is up, or a hundred turns have been
/// taken.
pub proof fn law_bots_play_on(course: Seq<GameModel>)
    requires
        1 <= course.len() <= 101,
        forall|i: int, j: int|
            0 <= i && j == i + 1 && j < course.len() ==> {
                &&& (#[trigger] course[i]).phase == GamePhase::Playing
                &&& course[i].finished_order.len() < 3
                &&& course[i].players[course[i].current_player as int].is_bot
                &&& #[trigger] course[j] == course[i].bot_turn()
            },
        course.len() == 101 || course.last().phase != GamePhase::Playing
            || !course.last().players[course.last().current_player as int].is_bot,
        course.last().finished_order.len() < 3,
    ensures
        course[0].bots_done() == course.last(),
{
    lemma_bots_along(course, 100);
}

proof fn lemma_bots_along(course: Seq<GameModel>, turns: nat)
    requires
        1 <= course.len() <= turns + 1,
        forall|i: int, j: int|
            0 <= i && j == i + 1 && j < course.len() ==> {
                &&& (#[trigger] course[i]).phase == GamePhase::Playing
                &&& course[i].finished_order.len() < 3
                &&& course[i].players[course[i].current_player as int].is_bot
                &&& #[trigger] course[j] == course[i].bot_turn()
            },
        course.len() == turns + 1 || course.last().phase != GamePhase::Playing
            || !course.last().players[course.last().current_player as int].is_bot,
        course.last().finished_order.len() < 3,
    ensures
        course[0].bots_played(turns) == course.last(),
    decreases course.len(),
{
    if course.len() > 1 {
        let rest = course.drop_first();
        assert(course[1] == course[0].bot_turn());
        assert forall|i: int, j: int| 0 <= i && j == i + 1 && j < rest.len() implies {
            &&& (#[trigger] rest[i]).phase == GamePhase::Playing
            &&& rest[i].finished_order.len() < 3
            &&& rest[i].players[rest[i].current_player as int].is_bot
            &&& #[trigger] rest[j] == rest[i].bot_turn()
        } by {
            assert(rest[j] == course[j + 1] && rest[i] == course[i + 1]);
        }
        lemma_bots_along(rest, (turns - 1) as nat);
        assert(rest[0] == course[1]);
        assert(rest.last() == course.last());
    } else {
        assert(course.last() == course[0]);
    }
}

/// A bot that has finished is passed over: the turn goes to the next seat, and
/// nothing else changes.
pub proof fn law_finished_bots_are_passed_over(game: GameModel)
    requires
        game.players.len() == 4,
        game.current_player < 4,
        game.players[game.current_player as int].finished,
    ensures
        game.bot_turn() == (GameModel { current_player: game.bot_turn().current_player, ..game }),
        game.current_player < 3 ==> game.bot_turn().current_player == game.current_player + 1,
        game.current_player == 3 ==> game.bot_turn().current_player == 0,
{
}

/// Nobody plays for a human, nor for anybody while no round is played.
pub proof fn law_who_is_no_bot_is_left_alone(game: GameModel)
    requires
        game.phase != GamePhase::Playing || !game.players[game.current_player as int].is_bot,
        game.finished_order.len() < 3,
    ensures
        game.one_bot_turn() == game,
        game.bots_done() == game,
{
    reveal_with_fuel(GameModel::bots_played, 2);
}

/// Every combination of a hand has its strength.
pub proof fn law_combinations_have_strength(hand: Seq<Card>, f: FoundModel)
    requires
        f.is_in(hand),
    ensures
        f.has_strength(hand),
{
    card::lemma_sorted_cards(bot::cards_at(hand, f.indices));
}

} // verus!
