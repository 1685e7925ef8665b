//! The discard of the threes, and the deal before it, as the players know them:
//! who discards before whom, what everybody puts down, and who begins.
use crate::game::card;
use crate::game::card::Card;
use crate::game::card::Rank;
use crate::game::card::Suit;
use crate::game::combo;
use crate::game::fairness;
use crate::game::rulebook;
use crate::game::rules;
use crate::game::state::GameModel;
use crate::game::state::GamePhase;
use crate::game::state::PlayerModel;
use vstd::prelude::*;

verus! {

/// Is a suit above another one? Spades are above hearts, hearts above clubs, and
/// clubs above diamonds.
pub open spec fn suit_above(higher: Suit, lower: Suit) -> bool {
    match higher {
        Suit::Spades => lower != Suit::Spades,
        Suit::Hearts => lower == Suit::Clubs || lower == Suit::Diamonds,
        Suit::Clubs => lower == Suit::Diamonds,
        Suit::Diamonds => false,
    }
}

/// Does a hand hold the three of a suit?
pub open spec fn has_three(hand: Seq<Card>, suit: Suit) -> bool {
    exists|i: int|
        0 <= i < hand.len() && (#[trigger] hand[i]).rank == Rank::Three && hand[i].suit == suit
}

/// Does a hand hold a three whose suit is above those of all threes of the other
/// hand?
pub open spec fn tops_threes(hand: Seq<Card>, other: Seq<Card>) -> bool {
    exists|suit: Suit| #[trigger]
        has_three(hand, suit) && forall|lower: Suit| #[trigger]
            has_three(other, lower) ==> suit_above(suit, lower)
}

proof fn lemma_threes(hand: Seq<Card>)
    ensures
        rules::threes(hand).len() == rulebook::of_rank(hand, Rank::Three),
        forall|c: Card| #[trigger]
            rules::threes(hand).contains(c) <==> hand.contains(c) && c.rank == Rank::Three,
    decreases hand.len(),
{
    reveal(Seq::filter);
    if hand.len() > 0 {
        let rest = hand.drop_last();
        lemma_threes(rest);
        let last = hand.last();
        assert(hand =~= rest.push(last));
        assert forall|c: Card| #[trigger]
            rules::threes(hand).contains(c) <==> hand.contains(c) && c.rank == Rank::Three by {
            lemma_push_contains(rest, last, c);
            if last.rank == Rank::Three {
                assert(rules::threes(hand) =~= rules::threes(rest).push(last));
                lemma_push_contains(rules::threes(rest), last, c);
            } else {
                assert(rules::threes(hand) =~= rules::threes(rest));
            }
            assert(rules::threes(rest).contains(c) <==> rest.contains(c) && c.rank == Rank::Three);
        }
    }
}

proof fn lemma_push_contains(cards: Seq<Card>, last: Card, c: Card)
    ensures
        cards.push(last).contains(c) <==> cards.contains(c) || c == last,
{
    let all = cards.push(last);
    if cards.contains(c) {
        let k = choose|k: int| 0 <= k < cards.len() && cards[k] == c;
        assert(all[k] == c);
    }
    if c == last {
        assert(all[cards.len() as int] == c);
    }
}

proof fn lemma_highest_suit(cards: Seq<Card>)
    ensures
        0 <= rules::highest_suit(cards) < 4,
        forall|i: int|
            0 <= i < cards.len() ==> (#[trigger] cards[i]).suit.index() <= rules::highest_suit(
                cards,
            ),
        cards.len() > 0 ==> exists|i: int|
            0 <= i < cards.len() && (#[trigger] cards[i]).suit.index() == rules::highest_suit(cards),
    decreases cards.len(),
{
    if cards.len() > 0 {
        let rest = cards.drop_last();
        lemma_highest_suit(rest);
        let last = cards.last();
        assert(cards[cards.len() - 1] == last);
        assert forall|i: int| 0 <= i < cards.len() implies (#[trigger] cards[i]).suit.index()
            <= rules::highest_suit(cards) by {
            if i < rest.len() {
                assert(rest[i] == cards[i]);
            }
        }
        if last.suit.index() <= rules::highest_suit(rest) {
            if rest.len() > 0 {
                let k = choose|k: int|
                    0 <= k < rest.len() && (#[trigger] rest[k]).suit.index()
                        == rules::highest_suit(rest);
                assert(cards[k] == rest[k]);
            }
        }
    }
}

/// The top suit of a hand's threes, as the suit itself.
proof fn lemma_top_three(hand: Seq<Card>)
    ensures
        0 <= rules::highest_suit(rules::threes(hand)) < 4,
        forall|suit: Suit| #[trigger]
            has_three(hand, suit) ==> suit.index() <= rules::highest_suit(rules::threes(hand)),
        forall|suit: Suit| #[trigger] has_three(hand, suit) ==> rules::threes(hand).len() > 0,
        rules::threes(hand).len() > 0 ==> exists|suit: Suit| #[trigger]
            has_three(hand, suit) && suit.index() == rules::highest_suit(rules::threes(hand)),
{
    let own = rules::threes(hand);
    lemma_threes(hand);
    lemma_highest_suit(own);
    assert forall|suit: Suit| #[trigger] has_three(hand, suit) implies suit.index()
        <= rules::highest_suit(own) && own.len() > 0 by {
        let i = choose|i: int|
            0 <= i < hand.len() && (#[trigger] hand[i]).rank == Rank::Three && hand[i].suit == suit;
        assert(hand.contains(hand[i]));
        assert(own.contains(hand[i]));
        let k = choose|k: int| 0 <= k < own.len() && own[k] == hand[i];
        assert(own[k].suit.index() <= rules::highest_suit(own));
    }
    if own.len() > 0 {
        let k = choose|k: int|
            0 <= k < own.len() && (#[trigger] own[k]).suit.index() == rules::highest_suit(own);
        assert(own.contains(own[k]));
        assert(hand.contains(own[k]));
        let i = choose|i: int| 0 <= i < hand.len() && hand[i] == own[k];
        assert(hand[i].rank == Rank::Three && hand[i].suit == own[k].suit);
        assert(has_three(hand, own[k].suit));
    }
}

proof fn lemma_suit_above(a: Suit, b: Suit)
    ensures
        suit_above(a, b) <==> a.index() > b.index(),
        a == b <==> a.index() == b.index(),
{
}

proof fn lemma_tops_threes(hand: Seq<Card>, other: Seq<Card>)
    requires
        rules::threes(hand).len() == rules::threes(other).len(),
        rules::threes(hand).len() > 0,
    ensures
        tops_threes(hand, other) <==> rules::highest_suit(rules::threes(hand))
            > rules::highest_suit(rules::threes(other)),
{
    lemma_top_three(hand);
    lemma_top_three(other);
    let top = choose|s: Suit| #[trigger]
        has_three(hand, s) && s.index() == rules::highest_suit(rules::threes(hand));
    let their = choose|s: Suit| #[trigger]
        has_three(other, s) && s.index() == rules::highest_suit(rules::threes(other));
    if tops_threes(hand, other) {
        let s = choose|s: Suit| #[trigger]
            has_three(hand, s) && forall|lower: Suit| #[trigger]
                has_three(other, lower) ==> suit_above(s, lower);
        assert(suit_above(s, their));
        lemma_suit_above(s, their);
    }
    if top.index() > their.index() {
        assert forall|lower: Suit| #[trigger] has_three(other, lower) implies suit_above(
            top,
            lower,
        ) by {
            lemma_suit_above(top, lower);
        }
    }
}

/// All four seats discard, each of them once.
pub proof fn law_everybody_discards_once(players: Seq<PlayerModel>)
    ensures
        ({
            let order = rules::discard_order(players);
            &&& order.len() == 4
            &&& order.no_duplicates()
            &&& forall|seat: usize| #[trigger] order.contains(seat) <==> seat < 4
        }),
{
    let order = rules::discard_order(players);
    let four = rules::four_seats();
    rules::law_discard_order(players);
    order.to_multiset_ensures();
    four.to_multiset_ensures();
    assert(four.no_duplicates());
    four.lemma_multiset_has_no_duplicates();
    assert forall|seat: usize| #[trigger] order.contains(seat) <==> seat < 4 by {
        assert(order.contains(seat) <==> order.to_multiset().count(seat) > 0);
        assert(four.contains(seat) <==> four.to_multiset().count(seat) > 0);
        assert(four[0] == 0 && four[1] == 1 && four[2] == 2 && four[3] == 3);
        if seat < 4 {
            assert(four[seat as int] == seat);
        }
    }
    order.lemma_multiset_has_no_duplicates_conv();
}

proof fn lemma_order_of_two(first: Seq<Card>, second: Seq<Card>, a: usize, b: usize)
    requires
        a != b,
        rules::threes_weight(first) > rules::threes_weight(second) || (rules::threes_weight(first)
            == rules::threes_weight(second) && a <= b),
    ensures
        ({
            let firsts = first.filter(|c: Card| c.rank == Rank::Three).len();
            let seconds = second.filter(|c: Card| c.rank == Rank::Three).len();
            ||| firsts > seconds
            ||| firsts == seconds && tops_threes(first, second)
            ||| firsts == seconds && !tops_threes(second, first) && a < b
        }),
{
    lemma_threes(first);
    lemma_threes(second);
    let firsts = rules::threes(first).len();
    let seconds = rules::threes(second).len();
    let one = rules::highest_suit(rules::threes(first));
    let two = rules::highest_suit(rules::threes(second));
    assert(0 <= one < 4 && 0 <= two < 4) by {
        lemma_highest_suit(rules::threes(first));
        lemma_highest_suit(rules::threes(second));
    }
    if firsts == seconds {
        if firsts > 0 {
            lemma_tops_threes(first, second);
            lemma_tops_threes(second, first);
        } else {
            reveal_with_fuel(rules::highest_suit, 1);
            assert(one == 0 && two == 0);
            assert(!tops_threes(second, first)) by {
                lemma_top_three(second);
            }
        }
    }
}

/// The more threes, the earlier the discard. Of two seats with as many, the one
/// with a three above all of the other's comes first; where they are level, the
/// lower seat does.
pub proof fn law_who_discards_first(players: Seq<PlayerModel>, i: int, j: int)
    requires
        0 <= i < j < 4,
    ensures
        ({
            let order = rules::discard_order(players);
            let first = players[order[i] as int].hand;
            let second = players[order[j] as int].hand;
            let firsts = first.filter(|c: Card| c.rank == Rank::Three).len();
            let seconds = second.filter(|c: Card| c.rank == Rank::Three).len();
            ||| firsts > seconds
            ||| firsts == seconds && tops_threes(first, second)
            ||| firsts == seconds && !tops_threes(second, first) && order[i] < order[j]
        }),
{
    let order = rules::discard_order(players);
    let first = players[order[i] as int].hand;
    let second = players[order[j] as int].hand;
    let leq = rules::discards_before(players);
    law_everybody_discards_once(players);
    rules::lemma_discards_before_total(players);
    rules::four_seats().lemma_sort_by_ensures(leq);
    assert(leq(order[i], order[j]));
    lemma_order_of_two(first, second, order[i], order[j]);
}

/// The same, said of two seats: whoever has more threes, or as many and one
/// above all of the other's, discards earlier.
pub proof fn law_weightier_threes_go_first(
    players: Seq<PlayerModel>,
    a: usize,
    b: usize,
    i: int,
    j: int,
)
    requires
        0 <= i < 4,
        0 <= j < 4,
        rules::discard_order(players)[i] == a,
        rules::discard_order(players)[j] == b,
        ({
            let more = players[a as int].hand.filter(|c: Card| c.rank == Rank::Three).len();
            let less = players[b as int].hand.filter(|c: Card| c.rank == Rank::Three).len();
            more > less || (more == less && tops_threes(
                players[a as int].hand,
                players[b as int].hand,
            ))
        }),
    ensures
        i < j,
{
    if j < i {
        law_who_discards_first(players, j, i);
        let one = players[a as int].hand;
        let two = players[b as int].hand;
        if tops_threes(one, two) && tops_threes(two, one) {
            lemma_not_both_top(one, two);
        }
    }
    if i == j && tops_threes(players[a as int].hand, players[a as int].hand) {
        lemma_not_both_top(players[a as int].hand, players[a as int].hand);
    }
}

proof fn lemma_not_both_top(one: Seq<Card>, two: Seq<Card>)
    ensures
        !tops_threes(one, two) || !tops_threes(two, one),
{
    let s = choose|s: Suit| #[trigger]
        has_three(one, s) && forall|lower: Suit| #[trigger]
            has_three(two, lower) ==> suit_above(s, lower);
    let t = choose|t: Suit| #[trigger]
        has_three(two, t) && forall|lower: Suit| #[trigger]
            has_three(one, lower) ==> suit_above(t, lower);
    if tops_threes(one, two) && tops_threes(two, one) {
        assert(suit_above(s, t) && suit_above(t, s));
    }
}

/// Where each seat holds one three, whoever holds the three of spades discards
/// first, and then the threes of hearts, clubs and diamonds follow.
pub proof fn law_single_threes_by_suit(players: Seq<PlayerModel>, i: int, j: int)
    requires
        0 <= i < j < 4,
        forall|s: int|
            0 <= s < 4 ==> (#[trigger] players[s]).hand.filter(
                |c: Card| c.rank == Rank::Three,
            ).len() == 1,
        forall|s: int, t: int, suit: Suit|
            0 <= s < 4 && 0 <= t < 4 && #[trigger] has_three(players[s].hand, suit)
                && #[trigger] has_three(players[t].hand, suit) ==> s == t,
    ensures
        ({
            let order = rules::discard_order(players);
            forall|high: Suit, low: Suit| #[trigger]
                has_three(players[order[i] as int].hand, high) && #[trigger] has_three(
                    players[order[j] as int].hand,
                    low,
                ) ==> suit_above(high, low)
        }),
{
    let order = rules::discard_order(players);
    law_everybody_discards_once(players);
    let a = order[i] as int;
    let b = order[j] as int;
    assert(order.contains(order[i]) && order.contains(order[j]));
    assert(a != b);
    let first = players[a].hand;
    let second = players[b].hand;
    lemma_threes(first);
    lemma_threes(second);
    law_who_discards_first(players, i, j);
    assert forall|high: Suit, low: Suit| #[trigger] has_three(first, high) && #[trigger] has_three(
        second,
        low,
    ) implies suit_above(high, low) by {
        lemma_one_three(first, high);
        lemma_one_three(second, low);
        lemma_suit_above(high, low);
        lemma_suit_above(low, high);
        if !suit_above(high, low) {
            assert(high != low);
            assert(suit_above(low, high));
            assert forall|s: Suit| #[trigger] has_three(first, s) implies suit_above(low, s) by {}
            assert(tops_threes(second, first));
            assert(!tops_threes(first, second)) by {
                if tops_threes(first, second) {
                    lemma_not_both_top(first, second);
                }
            }
        }
    }
}

/// A hand with one three has it in one suit.
proof fn lemma_one_three(hand: Seq<Card>, suit: Suit)
    requires
        rules::threes(hand).len() == 1,
        has_three(hand, suit),
    ensures
        forall|s: Suit| #[trigger] has_three(hand, s) ==> s == suit,
{
    lemma_threes(hand);
    let own = rules::threes(hand);
    let i = choose|i: int|
        0 <= i < hand.len() && (#[trigger] hand[i]).rank == Rank::Three && hand[i].suit == suit;
    assert(hand.contains(hand[i]) && own.contains(hand[i]));
    assert forall|s: Suit| #[trigger] has_three(hand, s) implies s == suit by {
        let k = choose|k: int|
            0 <= k < hand.len() && (#[trigger] hand[k]).rank == Rank::Three && hand[k].suit == s;
        assert(hand.contains(hand[k]) && own.contains(hand[k]));
    }
}

/// When the discard begins, each seat's threes are set aside for it and all its
/// other cards stay in its hand. The first seat of the order is at turn, and
/// nobody has discarded.
pub proof fn law_threes_are_set_aside(game: GameModel, seat: int)
    requires
        game.players.len() >= 4,
        0 <= seat < 4,
    ensures
        ({
            let after = game.discarding();
            &&& after.phase == GamePhase::ThreeDiscard
            &&& after.players[seat].hand == game.players[seat].hand.filter(
                |c: Card| c.rank != Rank::Three,
            )
            &&& after.three_discard matches Some(td) && {
                &&& td.player_cards.len() == 4
                &&& td.player_cards[seat] == game.players[seat].hand.filter(
                    |c: Card| c.rank == Rank::Three,
                )
                &&& td.order == rules::discard_order(game.players)
                &&& td.index == 0
                &&& td.discarded.len() == 4
                &&& !td.discarded[seat]
                &&& after.current_player == td.order[0]
                &&& td.player_cards[seat].to_multiset().add(after.players[seat].hand.to_multiset())
                    == game.players[seat].hand.to_multiset()
            }
            &&& after.trick == game.trick
            &&& after.scores == game.scores
            &&& after.finished_order == game.finished_order
        }),
{
    rules::law_threes_split(game.players[seat].hand);
}

/// A seat that discards hands the turn to the one behind it in the order. After
/// the last one play begins, with the seat that discarded first, and no three is
/// left in any hand.
pub proof fn law_discard_goes_down_the_order(game: GameModel, place: int)
    requires
        game.players.len() >= 4,
        game.three_discard matches Some(td) && {
            &&& 0 <= place < td.order.len()
            &&& td.order.no_duplicates()
            &&& td.order[place] < td.discarded.len()
        },
    ensures
        ({
            let td = game.three_discard.unwrap();
            let seat = td.order[place];
            let after = game.discarded_by(seat);
            &&& place < td.order.len() - 1 ==> {
                &&& after.current_player == td.order[place + 1]
                &&& after.phase == game.phase
                &&& after.players == game.players
                &&& after.three_discard matches Some(next) && next.order == td.order
                    && next.player_cards == td.player_cards && next.discarded.len()
                    == td.discarded.len() && next.discarded[seat as int] && forall|k: int|
                    0 <= k < td.discarded.len() && k != seat ==> #[trigger] next.discarded[k]
                        == td.discarded[k]
            }
            &&& place == td.order.len() - 1 ==> {
                &&& after.current_player == td.order[0]
                &&& after.phase == GamePhase::Playing
                &&& after.three_discard is None
                &&& forall|s: int|
                    0 <= s < 4 ==> (#[trigger] after.players[s]).hand == game.players[s].hand.filter(
                        |c: Card| c.rank != Rank::Three,
                    )
            }
        }),
{
    let td = game.three_discard.unwrap();
    let seat = td.order[place];
    td.order.index_of_first_ensures(seat);
    assert(td.order.contains(seat));
}

/// Each seat's hand holds the thirteen cards of its part of the deck: the first
/// seat those on top, and so on.
pub proof fn law_deal_in_thirteens(game: GameModel, deck: Seq<Card>, seat: int)
    requires
        deck.len() == 52,
        game.players.len() >= 4,
        0 <= seat < 4,
    ensures
        ({
            let after = game.dealt(deck);
            &&& after.players.len() == game.players.len()
            &&& after.players[seat].hand.len() == 13
            &&& after.players[seat].hand.to_multiset() == Seq::new(
                13,
                |k: int| deck[13 * seat + k],
            ).to_multiset()
            &&& after.players[seat].name == game.players[seat].name
            &&& after.players[seat].is_bot == game.players[seat].is_bot
            &&& after.phase == game.phase
            &&& after.scores == game.scores
        }),
{
    let part = deck.subrange(13 * seat, 13 * seat + 13);
    card::lemma_sorted_cards(part);
    assert(part =~= Seq::new(13, |k: int| deck[13 * seat + k]));
}

/// A deck is fair unless it deals somebody all four twos.
pub proof fn law_fair_decks(deck: Seq<Card>)
    requires
        deck.len() == 52,
    ensures
        rules::fair_deck(deck) <==> forall|seat: int|
            0 <= seat < 4 ==> (#[trigger] deck.subrange(13 * seat, 13 * seat + 13)).filter(
                |c: Card| c.rank == Rank::Two,
            ).len() != 4,
{
    assert forall|seat: int| 0 <= seat < 4 implies combo::rank_count(
        #[trigger] rules::dealt_hand(deck, seat),
        12,
    ) == deck.subrange(13 * seat, 13 * seat + 13).filter(|c: Card| c.rank == Rank::Two).len() by {
        let part = deck.subrange(13 * seat, 13 * seat + 13);
        card::lemma_sorted_cards(part);
        rulebook::lemma_of_rank(part, Rank::Two);
        fairness::lemma_rank_count_by_suit(rules::dealt_hand(deck, seat), Rank::Two);
        fairness::lemma_rank_count_by_suit(part, Rank::Two);
    }
    if rules::fair_deck(deck) {
        assert forall|seat: int| 0 <= seat < 4 implies (#[trigger] deck.subrange(
            13 * seat,
            13 * seat + 13,
        )).filter(|c: Card| c.rank == Rank::Two).len() != 4 by {
            assert(combo::rank_count(rules::dealt_hand(deck, seat), 12) != 4);
        }
    }
}

/// A shuffled deck holds each of the fifty-two cards once.
pub proof fn law_shuffled_decks(deck: Seq<Card>, c: Card)
    requires
        rules::is_shuffled_deck(deck),
    ensures
        deck.len() == 52,
        deck.contains(c),
        deck.no_duplicates(),
{
    let full = card::full_deck();
    rules::lemma_shuffled_deck_len(deck);
    card::law_deck_no_duplicates();
    card::law_deck_complete(c);
    full.to_multiset_ensures();
    deck.to_multiset_ensures();
    full.lemma_multiset_has_no_duplicates();
    deck.lemma_multiset_has_no_duplicates_conv();
    assert(full.to_multiset().count(c) > 0);
    assert(deck.to_multiset().count(c) > 0);
}

/// A seat discards once, and only while threes are discarded.
pub proof fn law_discarding_once(game: GameModel, seat: usize)
    ensures
        game.three_discard is None ==> !game.may_discard(seat),
        game.three_discard matches Some(td) ==> (game.may_discard(seat)
            <==> !td.discarded[seat as int]),
{
}

} // verus!
