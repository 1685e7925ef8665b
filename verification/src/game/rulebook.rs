//! The rules of the table as its players know them: which cards make what, and
//! what may be played on what. Everything is said of ranks and suits by their
//! names.
use crate::game::answers;
use crate::game::card;
use crate::game::card::Card;
use crate::game::card::Rank;
use crate::game::card::Suit;
use crate::game::combo;
use crate::game::combo::ComboModel;
use crate::game::combo::ComboType;
use crate::game::fairness;
use crate::game::rules::verdict;
use vstd::prelude::*;
use vstd::relations::*;
use vstd::seq_lib::*;

verus! {

// ---------------------------------------------------------------------------
// Ranks and suits
// ---------------------------------------------------------------------------

/// The ranks, the lowest first.
pub open spec fn ranks_in_order() -> Seq<Rank> {
    seq![
        Rank::Three,
        Rank::Four,
        Rank::Five,
        Rank::Six,
        Rank::Seven,
        Rank::Eight,
        Rank::Nine,
        Rank::Ten,
        Rank::Jack,
        Rank::Queen,
        Rank::King,
        Rank::Ace,
        Rank::Two,
    ]
}

/// The suits, the lowest first.
pub open spec fn suits_in_order() -> Seq<Suit> {
    seq![Suit::Diamonds, Suit::Clubs, Suit::Hearts, Suit::Spades]
}

/// Ranks count up from three to ace, with the two above all; suits count up from
/// diamonds over clubs and hearts to spades.
pub proof fn law_order_of_ranks_and_suits(rank: Rank, suit: Suit)
    ensures
        0 <= rank.index() < 13,
        ranks_in_order()[rank.index()] == rank,
        forall|i: int| 0 <= i < 13 ==> (#[trigger] ranks_in_order()[i]).index() == i,
        0 <= suit.index() < 4,
        suits_in_order()[suit.index()] == suit,
        forall|i: int| 0 <= i < 4 ==> (#[trigger] suits_in_order()[i]).index() == i,
        ranks_in_order().len() == 13,
        suits_in_order().len() == 4,
{
}

/// A sorted hand holds the same cards, the lower rank first and, within a rank,
/// the lower suit first.
pub proof fn law_hands_are_sorted(cards: Seq<Card>, i: int, j: int)
    requires
        0 <= i < j < cards.len(),
    ensures
        ({
            let hand = card::sorted_cards(cards);
            &&& hand.to_multiset() == cards.to_multiset()
            &&& hand.len() == cards.len()
            &&& hand[i].rank.index() < hand[j].rank.index() || (hand[i].rank == hand[j].rank
                && hand[i].suit.index() <= hand[j].suit.index())
        }),
{
    card::lemma_sorted_cards(cards);
    let hand = card::sorted_cards(cards);
    assert((card::card_leq())(hand[i], hand[j]));
    assert(hand[i].rank.index() == hand[j].rank.index() ==> hand[i].rank == hand[j].rank);
}

/// The deck goes suit by suit, and up the ranks within each.
pub proof fn law_deck_goes_up(i: int, j: int)
    requires
        0 <= i < j < 52,
    ensures
        card::full_deck().len() == 52,
        ({
            let a = card::full_deck()[i];
            let b = card::full_deck()[j];
            a.suit.index() < b.suit.index() || (a.suit == b.suit && a.rank.index()
                < b.rank.index())
        }),
{
    let a = card::full_deck()[i];
    let b = card::full_deck()[j];
    assert(a.suit.index() == i / 13 && b.suit.index() == j / 13);
    assert(a.rank.index() == i % 13 && b.rank.index() == j % 13);
}

// ---------------------------------------------------------------------------
// Which cards make what
// ---------------------------------------------------------------------------

/// How many of the cards have the rank.
pub open spec fn of_rank(cards: Seq<Card>, rank: Rank) -> nat {
    cards.filter(|c: Card| c.rank == rank).len()
}

/// All cards have this rank.
pub open spec fn all_of(cards: Seq<Card>, rank: Rank) -> bool {
    forall|i: int| 0 <= i < cards.len() ==> (#[trigger] cards[i]).rank == rank
}

/// All cards have this suit.
pub open spec fn all_in_suit(cards: Seq<Card>, suit: Suit) -> bool {
    forall|i: int| 0 <= i < cards.len() ==> (#[trigger] cards[i]).suit == suit
}

/// Three of one rank and two of another.
pub open spec fn house_of(cards: Seq<Card>, three: Rank, two: Rank) -> bool {
    cards.len() == 5 && of_rank(cards, three) == 3 && of_rank(cards, two) == 2
}

/// Four of one rank and one of another.
pub open spec fn four_of(cards: Seq<Card>, four: Rank, one: Rank) -> bool {
    cards.len() == 5 && of_rank(cards, four) == 4 && of_rank(cards, one) == 1
}

/// Is the rank right above the other one in a straight? Straights run from three
/// to nine and from ten to ace, and never across.
pub open spec fn follows(lower: Rank, higher: Rank) -> bool {
    match lower {
        Rank::Three => higher == Rank::Four,
        Rank::Four => higher == Rank::Five,
        Rank::Five => higher == Rank::Six,
        Rank::Six => higher == Rank::Seven,
        Rank::Seven => higher == Rank::Eight,
        Rank::Eight => higher == Rank::Nine,
        Rank::Ten => higher == Rank::Jack,
        Rank::Jack => higher == Rank::Queen,
        Rank::Queen => higher == Rank::King,
        Rank::King => higher == Rank::Ace,
        _ => false,
    }
}

/// Is the rank a number, from three to nine?
pub open spec fn is_number(rank: Rank) -> bool {
    match rank {
        Rank::Three | Rank::Four | Rank::Five | Rank::Six | Rank::Seven | Rank::Eight
        | Rank::Nine => true,
        _ => false,
    }
}

/// Does the rank belong to the upper straights, from ten to ace?
pub open spec fn is_upper(rank: Rank) -> bool {
    match rank {
        Rank::Ten | Rank::Jack | Rank::Queen | Rank::King | Rank::Ace => true,
        _ => false,
    }
}

/// Each card's rank is right above that of the card before.
pub open spec fn goes_up(cards: Seq<Card>) -> bool {
    forall|i: int, j: int|
        0 <= i && j == i + 1 && j < cards.len() ==> follows(
            (#[trigger] cards[i]).rank,
            (#[trigger] cards[j]).rank,
        )
}

pub proof fn lemma_of_rank(cards: Seq<Card>, rank: Rank)
    ensures
        of_rank(cards, rank) == combo::rank_count(cards, rank.index()),
        of_rank(cards, rank) <= cards.len(),
    decreases cards.len(),
{
    reveal(Seq::filter);
    if cards.len() > 0 {
        lemma_of_rank(cards.drop_last(), rank);
        assert(cards.last().rank.index() == rank.index() ==> cards.last().rank == rank);
    }
}

/// How many cards of a rank there are does not depend on their order.
pub proof fn lemma_of_rank_sorted(cards: Seq<Card>, rank: Rank)
    ensures
        of_rank(card::sorted_cards(cards), rank) == of_rank(cards, rank),
{
    card::lemma_sorted_cards(cards);
    lemma_of_rank(cards, rank);
    lemma_of_rank(card::sorted_cards(cards), rank);
    fairness::lemma_rank_count_by_suit(cards, rank);
    fairness::lemma_rank_count_by_suit(card::sorted_cards(cards), rank);
}

/// A group of so many cards is found where there is one, and only there.
proof fn lemma_group(cards: Seq<Card>, count: nat)
    ensures
        match combo::rank_with_count(cards, count, 0) {
            Some(r) => 0 <= r < 13 && of_rank(cards, Rank::at(r)) == count && Rank::at(r).index()
                == r,
            None => forall|rank: Rank| #[trigger] of_rank(cards, rank) != count,
        },
{
    answers::lemma_rank_with_count(cards, count, 0);
    match combo::rank_with_count(cards, count, 0) {
        Some(r) => {
            lemma_of_rank(cards, Rank::at(r));
        },
        None => {
            assert forall|rank: Rank| #[trigger] of_rank(cards, rank) != count by {
                lemma_of_rank(cards, rank);
                assert(combo::rank_count(cards, rank.index()) != count);
            }
        },
    }
}

/// Of five cards, no two ranks have more than five cards together.
proof fn lemma_two_ranks(cards: Seq<Card>, a: Rank, b: Rank)
    requires
        cards.len() == 5,
        a != b,
    ensures
        of_rank(cards, a) + of_rank(cards, b) <= 5,
{
    lemma_of_rank(cards, a);
    lemma_of_rank(cards, b);
    answers::lemma_count_five(cards, a.index());
    answers::lemma_count_five(cards, b.index());
    assert(a.index() != b.index());
}

/// One to four cards of one rank make a single, a pair, a triple or a bomb.
pub proof fn law_cards_of_one_rank(cards: Seq<Card>, rank: Rank)
    requires
        all_of(cards, rank),
    ensures
        cards.len() == 1 ==> combo::combo_type_of(cards) == Some(ComboType::Single),
        cards.len() == 2 ==> combo::combo_type_of(cards) == Some(ComboType::Pair),
        cards.len() == 3 ==> combo::combo_type_of(cards) == Some(ComboType::Triple),
        cards.len() == 4 ==> combo::combo_type_of(cards) == Some(ComboType::Bomb),
{
    if cards.len() > 0 {
        assert(cards[0].rank == rank);
        assert(combo::same_rank(cards));
    }
}

/// Single, pair, triple and bomb are one to four cards of one rank, and nothing
/// else is.
pub proof fn law_only_cards_of_one_rank(cards: Seq<Card>)
    ensures
        combo::combo_type_of(cards) == Some(ComboType::Single) ==> cards.len() == 1,
        combo::combo_type_of(cards) == Some(ComboType::Pair) ==> cards.len() == 2 && all_of(
            cards,
            cards[0].rank,
        ),
        combo::combo_type_of(cards) == Some(ComboType::Triple) ==> cards.len() == 3 && all_of(
            cards,
            cards[0].rank,
        ),
        combo::combo_type_of(cards) == Some(ComboType::Bomb) ==> cards.len() == 4 && all_of(
            cards,
            cards[0].rank,
        ),
        cards.len() == 0 || cards.len() > 5 ==> combo::combo_type_of(cards) is None,
{
}

/// Three of one rank and two of another make a full house, and nothing else
/// does.
pub proof fn law_full_house(cards: Seq<Card>)
    ensures
        combo::combo_type_of(cards) == Some(ComboType::FullHouse) <==> exists|three: Rank, two: Rank|
            #[trigger] house_of(cards, three, two),
{
    if cards.len() == 5 {
        lemma_group(cards, 4);
        lemma_group(cards, 3);
        lemma_group(cards, 2);
        if combo::combo_type_of(cards) == Some(ComboType::FullHouse) {
            let three = Rank::at(combo::rank_with_count(cards, 3, 0).unwrap());
            let two = Rank::at(combo::rank_with_count(cards, 2, 0).unwrap());
            assert(house_of(cards, three, two));
        }
        if exists|three: Rank, two: Rank| #[trigger] house_of(cards, three, two) {
            let (three, two) = choose|three: Rank, two: Rank| #[trigger]
                house_of(cards, three, two);
            if let Some(r) = combo::rank_with_count(cards, 4, 0) {
                lemma_two_ranks(cards, Rank::at(r), three);
            }
        }
    }
}

/// Four of one rank and another card make four of a kind, and nothing else does.
pub proof fn law_four_of_a_kind(cards: Seq<Card>)
    ensures
        combo::combo_type_of(cards) == Some(ComboType::FourKind) <==> cards.len() == 5 && exists|
            four: Rank,
        | #[trigger]
            of_rank(cards, four) == 4,
{
    if cards.len() == 5 {
        lemma_group(cards, 4);
        if combo::combo_type_of(cards) == Some(ComboType::FourKind) {
            let four = Rank::at(combo::rank_with_count(cards, 4, 0).unwrap());
            assert(of_rank(cards, four) == 4);
        }
    }
}

proof fn lemma_goes_up(cards: Seq<Card>, i: int)
    requires
        goes_up(cards),
        0 <= i < cards.len(),
    ensures
        cards[i].rank.index() == cards[0].rank.index() + i,
        is_number(cards[0].rank) || is_upper(cards[0].rank) || cards.len() == 1,
        is_number(cards[i].rank) == is_number(cards[0].rank),
        is_upper(cards[i].rank) == is_upper(cards[0].rank),
    decreases i,
{
    if i > 0 {
        lemma_goes_up(cards, i - 1);
        assert(follows(cards[i - 1].rank, cards[i].rank));
    }
    if cards.len() > 1 {
        assert(follows(cards[0].rank, cards[1].rank));
    }
}

/// Five cards of different ranks hold no group.
proof fn lemma_no_group(cards: Seq<Card>, count: nat)
    requires
        cards.len() == 5,
        count >= 2,
        forall|i: int, j: int|
            0 <= i < j < 5 ==> (#[trigger] cards[i]).rank != (#[trigger] cards[j]).rank,
    ensures
        !combo::has_group(cards, count),
{
    lemma_group(cards, count);
    if let Some(r) = combo::rank_with_count(cards, count, 0) {
        let rank = Rank::at(r);
        lemma_of_rank(cards, rank);
        answers::lemma_count_five(cards, r);
        assert(cards[0].rank != cards[1].rank && cards[0].rank != cards[2].rank && cards[0].rank
            != cards[3].rank && cards[0].rank != cards[4].rank && cards[1].rank != cards[2].rank
            && cards[1].rank != cards[3].rank && cards[1].rank != cards[4].rank && cards[2].rank
            != cards[3].rank && cards[2].rank != cards[4].rank && cards[3].rank != cards[4].rank);
        assert(forall|c: Card| c.rank.index() == r ==> c.rank == rank);
    }
}

/// Three to five cards of one suit whose ranks go up one by one, from three to
/// nine or from ten to ace, make a straight, whichever suit and wherever the run
/// begins and ends.
pub proof fn law_runs_are_straights(cards: Seq<Card>, suit: Suit)
    requires
        3 <= cards.len() <= 5,
        all_in_suit(cards, suit),
        goes_up(cards),
    ensures
        combo::combo_type_of(cards) == Some(ComboType::Straight),
        combo::straight_ranks(combo::card_ranks(cards)),
{
    let ranks = combo::card_ranks(cards);
    let lo = cards[0].rank.index();
    assert forall|i: int| 0 <= i < cards.len() implies #[trigger] ranks[i] == lo + i by {
        lemma_goes_up(cards, i);
    }
    assert forall|i: int, j: int| 0 <= i < j < cards.len() implies (#[trigger] cards[i]).rank != (
    #[trigger] cards[j]).rank by {
        lemma_goes_up(cards, i);
        lemma_goes_up(cards, j);
    }
    assert(combo::all_within(ranks, lo, lo + ranks.len()));
    lemma_goes_up(cards, cards.len() - 1);
    lemma_goes_up(cards, 0);
    assert(cards[0].suit == suit);
    assert(combo::same_suit(cards));
    assert(combo::suited_straight(cards));
    assert(cards[0].rank != cards[1].rank);
    if cards.len() == 5 {
        lemma_no_group(cards, 4);
        lemma_no_group(cards, 3);
    }
}

/// Numbers are the ranks of a straight if and only if there are at least three,
/// all different, none further from another than there is room for, and all of
/// them from three to nine or all of them from ten to ace.
pub proof fn law_straight_numbers(ranks: Seq<usize>)
    ensures
        combo::straight_ranks(ranks) <==> {
            &&& ranks.len() >= 3
            &&& forall|i: int, j: int|
                0 <= i < j < ranks.len() ==> #[trigger] ranks[i] != #[trigger] ranks[j]
            &&& forall|i: int, j: int|
                0 <= i < ranks.len() && 0 <= j < ranks.len() ==> #[trigger] ranks[i]
                    - #[trigger] ranks[j] < ranks.len()
            &&& {
                ||| forall|i: int|
                    0 <= i < ranks.len() ==> Rank::Three.index() <= #[trigger] ranks[i]
                        <= Rank::Nine.index()
                ||| forall|i: int|
                    0 <= i < ranks.len() ==> Rank::Ten.index() <= #[trigger] ranks[i]
                        <= Rank::Ace.index()
            }
        },
{
    let close = forall|i: int, j: int|
        0 <= i < ranks.len() && 0 <= j < ranks.len() ==> #[trigger] ranks[i] - #[trigger] ranks[j]
            < ranks.len();
    if ranks.len() >= 3 {
        if close {
            let m = lemma_lowest(ranks);
            assert(combo::all_within(ranks, ranks[m] as int, ranks[m] + ranks.len())) by {
                assert forall|i: int| 0 <= i < ranks.len() implies ranks[m]
                    <= #[trigger] ranks[i] < ranks[m] + ranks.len() by {
                    assert(ranks[i] - ranks[m] < ranks.len());
                }
            }
        }
        if exists|lo: int| #[trigger] combo::all_within(ranks, lo, lo + ranks.len()) {
            let lo = choose|lo: int| #[trigger] combo::all_within(ranks, lo, lo + ranks.len());
            assert forall|i: int, j: int|
                0 <= i < ranks.len() && 0 <= j < ranks.len() implies #[trigger] ranks[i]
                - #[trigger] ranks[j] < ranks.len() by {
                assert(lo <= ranks[i] < lo + ranks.len() && lo <= ranks[j]);
            }
        }
    }
}

proof fn lemma_lowest(ranks: Seq<usize>) -> (m: int)
    requires
        ranks.len() > 0,
    ensures
        0 <= m < ranks.len(),
        forall|i: int| 0 <= i < ranks.len() ==> ranks[m] <= #[trigger] ranks[i],
    decreases ranks.len(),
{
    if ranks.len() == 1 {
        0
    } else {
        let rest = ranks.drop_last();
        let m = lemma_lowest(rest);
        assert forall|i: int| 0 <= i < rest.len() implies rest[m] <= #[trigger] ranks[i] by {
            assert(rest[i] == ranks[i]);
        }
        if ranks[m] <= ranks.last() {
            m
        } else {
            ranks.len() - 1
        }
    }
}

/// Cards of one suit with different ranks, all from three to nine or all from ten
/// to ace, none further from another than there is room for.
pub open spec fn is_run(cards: Seq<Card>) -> bool {
    &&& all_in_suit(cards, cards[0].suit)
    &&& forall|i: int, j: int|
        0 <= i < j < cards.len() ==> (#[trigger] cards[i]).rank != (#[trigger] cards[j]).rank
    &&& forall|i: int, j: int|
        0 <= i < cards.len() && 0 <= j < cards.len() ==> (#[trigger] cards[i]).rank.index() - (
        #[trigger] cards[j]).rank.index() < cards.len()
    &&& {
        ||| forall|i: int| 0 <= i < cards.len() ==> is_number((#[trigger] cards[i]).rank)
        ||| forall|i: int| 0 <= i < cards.len() ==> is_upper((#[trigger] cards[i]).rank)
    }
}

proof fn lemma_straight_is_run(cards: Seq<Card>)
    requires
        combo::suited_straight(cards),
    ensures
        is_run(cards),
{
    let ranks = combo::card_ranks(cards);
    law_straight_numbers(ranks);
    assert forall|i: int, j: int| 0 <= i < j < cards.len() implies (#[trigger] cards[i]).rank != (
    #[trigger] cards[j]).rank by {
        assert(ranks[i] != ranks[j]);
    }
    assert forall|i: int, j: int| 0 <= i < cards.len() && 0 <= j < cards.len() implies (
    #[trigger] cards[i]).rank.index() - (#[trigger] cards[j]).rank.index() < cards.len() by {
        assert(ranks[i] - ranks[j] < ranks.len());
    }
    if forall|i: int|
        0 <= i < ranks.len() ==> Rank::Three.index() <= #[trigger] ranks[i]
            <= Rank::Nine.index() {
        assert forall|i: int| 0 <= i < cards.len() implies is_number(
            (#[trigger] cards[i]).rank,
        ) by {
            assert(ranks[i] <= Rank::Nine.index());
        }
    } else {
        assert forall|i: int| 0 <= i < cards.len() implies is_upper((#[trigger] cards[i]).rank) by {
            assert(Rank::Ten.index() <= ranks[i] <= Rank::Ace.index());
        }
    }
}

proof fn lemma_index(rank: Rank)
    ensures
        0 <= rank.index() < 13,
        is_number(rank) <==> rank.index() <= 6,
        is_upper(rank) <==> 7 <= rank.index() <= 11,
{
}

proof fn lemma_indices_apart(a: Rank, b: Rank)
    requires
        a != b,
    ensures
        a.index() != b.index(),
{
}

proof fn lemma_run_is_straight(cards: Seq<Card>)
    requires
        cards.len() >= 3,
        is_run(cards),
    ensures
        combo::suited_straight(cards),
{
    let ranks = combo::card_ranks(cards);
    assert forall|i: int, j: int| 0 <= i < j < ranks.len() implies #[trigger] ranks[i]
        != #[trigger] ranks[j] by {
        lemma_index(cards[i].rank);
        lemma_index(cards[j].rank);
        assert(cards[i].rank != cards[j].rank);
        lemma_indices_apart(cards[i].rank, cards[j].rank);
    }
    assert forall|i: int, j: int| 0 <= i < ranks.len() && 0 <= j < ranks.len() implies (
    #[trigger] ranks[i]) - (#[trigger] ranks[j]) < ranks.len() by {
        lemma_index(cards[i].rank);
        lemma_index(cards[j].rank);
        assert(cards[i].rank.index() - cards[j].rank.index() < cards.len());
    }
    if forall|i: int| 0 <= i < cards.len() ==> is_number((#[trigger] cards[i]).rank) {
        assert forall|i: int| 0 <= i < ranks.len() implies Rank::Three.index()
            <= #[trigger] ranks[i] <= Rank::Nine.index() by {
            assert(is_number(cards[i].rank));
            lemma_index(cards[i].rank);
        }
    } else {
        assert forall|i: int| 0 <= i < ranks.len() implies Rank::Ten.index()
            <= #[trigger] ranks[i] <= Rank::Ace.index() by {
            assert(is_upper(cards[i].rank));
            lemma_index(cards[i].rank);
        }
    }
    law_straight_numbers(ranks);
    assert(combo::straight_ranks(ranks));
}

/// A straight is a run of three to five cards, and every such run is one.
pub proof fn law_straight(cards: Seq<Card>)
    ensures
        combo::combo_type_of(cards) == Some(ComboType::Straight) <==> 3 <= cards.len() <= 5
            && is_run(cards),
{
    if combo::combo_type_of(cards) == Some(ComboType::Straight) {
        lemma_straight_is_run(cards);
    }
    if 3 <= cards.len() <= 5 && is_run(cards) {
        lemma_run_is_straight(cards);
        assert(cards[0].rank != cards[1].rank);
        if cards.len() == 5 {
            lemma_no_group(cards, 4);
            lemma_no_group(cards, 3);
        }
    }
}

// ---------------------------------------------------------------------------
// What may be played on what
// ---------------------------------------------------------------------------

/// The combination that the cards make.
pub open spec fn made(cards: Seq<Card>) -> ComboModel {
    combo::combo_of(cards).unwrap()
}

proof fn lemma_made(cards: Seq<Card>)
    requires
        combo::combo_type_of(cards) is Some,
    ensures
        combo::combo_of(cards) == Some(made(cards)),
        made(cards).combo_type == combo::combo_type_of(cards).unwrap(),
        made(cards).cards == card::sorted_cards(cards),
        made(cards).cards.len() == cards.len() >= 1,
{
    card::lemma_sorted_cards(cards);
}

/// On an empty table everything that is a combination may be played, but no
/// bomb.
pub proof fn law_lead(cards: Seq<Card>)
    ensures
        verdict(cards, None).valid <==> combo::combo_type_of(cards) is Some
            && combo::combo_type_of(cards) != Some(ComboType::Bomb),
{
}

/// A play of the table's kind and size is valid if and only if it is above what
/// lies there.
pub proof fn law_higher_play_is_valid(cards: Seq<Card>, table: ComboModel)
    requires
        combo::combo_type_of(cards) == Some(table.combo_type),
        cards.len() == table.cards.len(),
    ensures
        verdict(cards, Some(table)).valid <==> (made(cards).above(table) matches Some(d) && d > 0),
        verdict(cards, Some(table)).valid ==> verdict(cards, Some(table)).combo == Some(
            made(cards),
        ),
{
    lemma_made(cards);
}

/// A play of another kind or size than the table's is never valid, unless it is
/// a bomb on a single two.
pub proof fn law_kind_and_size_must_match(cards: Seq<Card>, table: ComboModel)
    requires
        combo::combo_type_of(cards) != Some(table.combo_type) || cards.len() != table.cards.len(),
    ensures
        verdict(cards, Some(table)).valid <==> {
            &&& cards.len() == 4
            &&& all_of(cards, cards[0].rank)
            &&& table.combo_type == ComboType::Single
            &&& table.cards.len() > 0
            &&& table.cards[0].rank == Rank::Two
        },
{
    if combo::combo_type_of(cards) is Some {
        lemma_made(cards);
    }
    law_only_cards_of_one_rank(cards);
    if cards.len() == 4 && all_of(cards, cards[0].rank) {
        law_cards_of_one_rank(cards, cards[0].rank);
    }
}

/// A play that is not valid says why.
pub proof fn law_refusals_are_explained(cards: Seq<Card>, table: ComboModel)
    ensures
        cards.len() == 0 ==> verdict(cards, Some(table)).error == "No cards selected"@ && verdict(
            cards,
            None,
        ).error == "No cards selected"@,
        cards.len() > 0 && combo::combo_type_of(cards) is None ==> verdict(
            cards,
            Some(table),
        ).error == "Invalid combo"@ && verdict(cards, None).error == "Invalid combo"@,
        verdict(cards, Some(table)).valid ==> verdict(cards, Some(table)).error.len() == 0,
        verdict(cards, None).valid ==> verdict(cards, None).error.len() == 0,
{
    card::lemma_sorted_cards(cards);
}

/// Of one to four cards of one rank each, as many on both sides, the higher rank
/// wins.
pub proof fn law_higher_rank_wins(cards: Seq<Card>, rank: Rank, below: Seq<Card>, other: Rank)
    requires
        1 <= cards.len() <= 4,
        below.len() == cards.len(),
        all_of(cards, rank),
        all_of(below, other),
    ensures
        made(cards).above(made(below)) == Some(rank.index() - other.index()),
        verdict(cards, Some(made(below))).valid <==> rank.index() > other.index(),
{
    law_cards_of_one_rank(cards, rank);
    law_cards_of_one_rank(below, other);
    lemma_made(cards);
    lemma_made(below);
    lemma_sorted_all_of(cards, rank);
    lemma_sorted_all_of(below, other);
    let a = made(cards).cards;
    let b = made(below).cards;
    assert(a[0].rank == rank && a[a.len() - 1].rank == rank);
    assert(b[0].rank == other && b[b.len() - 1].rank == other);
}

proof fn lemma_sorted_all_of(cards: Seq<Card>, rank: Rank)
    requires
        all_of(cards, rank),
    ensures
        all_of(card::sorted_cards(cards), rank),
{
    card::lemma_sorted_cards(cards);
    let sorted = card::sorted_cards(cards);
    assert forall|i: int| 0 <= i < sorted.len() implies (#[trigger] sorted[i]).rank == rank by {
        answers::lemma_sorted_member(cards, i);
        let k = choose|k: int| 0 <= k < cards.len() && cards[k] == sorted[i];
        assert(cards[k].rank == rank);
    }
}

/// No card's rank is above that of the card in this place.
pub open spec fn tops(cards: Seq<Card>, at: int) -> bool {
    0 <= at < cards.len() && forall|i: int|
        0 <= i < cards.len() ==> (#[trigger] cards[i]).rank.index() <= cards[at].rank.index()
}

proof fn lemma_top_is_last(cards: Seq<Card>, at: int)
    requires
        tops(cards, at),
    ensures
        card::sorted_cards(cards).last().rank == cards[at].rank,
{
    broadcast use group_to_multiset_ensures;

    card::lemma_sorted_cards(cards);
    let sorted = card::sorted_cards(cards);
    let last = cards.len() - 1;
    answers::lemma_sorted_member(cards, last);
    let k = choose|k: int| 0 <= k < cards.len() && cards[k] == sorted[last];
    assert(cards[k].rank.index() <= cards[at].rank.index());
    assert(cards.contains(cards[at]));
    assert(sorted.to_multiset().count(cards[at]) > 0);
    let m = choose|m: int| 0 <= m < sorted.len() && sorted[m] == cards[at];
    if m < last {
        assert((card::card_leq())(sorted[m], sorted[last]));
    }
    assert(sorted[last].rank.index() == cards[at].rank.index());
    assert(sorted[last].rank == cards[at].rank);
}

/// Of two straights of one length, the one with the higher top card wins,
/// whatever the suits.
pub proof fn law_higher_straight_wins(cards: Seq<Card>, at: int, below: Seq<Card>, under: int)
    requires
        combo::combo_type_of(cards) == Some(ComboType::Straight),
        combo::combo_type_of(below) == Some(ComboType::Straight),
        below.len() == cards.len(),
        tops(cards, at),
        tops(below, under),
    ensures
        made(cards).above(made(below)) == Some(
            cards[at].rank.index() - below[under].rank.index(),
        ),
        verdict(cards, Some(made(below))).valid <==> cards[at].rank.index()
            > below[under].rank.index(),
{
    lemma_made(cards);
    lemma_made(below);
    lemma_top_is_last(cards, at);
    lemma_top_is_last(below, under);
}

proof fn lemma_house_ranks(cards: Seq<Card>, three: Rank, two: Rank)
    requires
        house_of(cards, three, two),
    ensures
        combo::combo_type_of(cards) == Some(ComboType::FullHouse),
        made(cards).main_rank() == three.index(),
        made(cards).second_rank() == two.index(),
{
    law_full_house(cards);
    lemma_made(cards);
    let sorted = card::sorted_cards(cards);
    lemma_of_rank_sorted(cards, three);
    lemma_of_rank_sorted(cards, two);
    lemma_group(sorted, 3);
    lemma_group(sorted, 2);
    let t = Rank::at(combo::rank_with_count(sorted, 3, 0).unwrap());
    let p = Rank::at(combo::rank_with_count(sorted, 2, 0).unwrap());
    if t != three {
        lemma_two_ranks(sorted, t, three);
    }
    if p != two {
        lemma_three_ranks(sorted, three, p, two);
    }
}

/// No three ranks have more cards together than there are.
proof fn lemma_three_ranks(cards: Seq<Card>, a: Rank, b: Rank, c: Rank)
    requires
        a != b,
        a != c,
        b != c,
    ensures
        of_rank(cards, a) + of_rank(cards, b) + of_rank(cards, c) <= cards.len(),
    decreases cards.len(),
{
    reveal(Seq::filter);
    if cards.len() > 0 {
        lemma_three_ranks(cards.drop_last(), a, b, c);
    }
}

/// Of two full houses the one with the higher triple wins, and of two with the
/// same triple the one with the higher pair.
pub proof fn law_higher_full_house_wins(
    cards: Seq<Card>,
    three: Rank,
    two: Rank,
    below: Seq<Card>,
    other_three: Rank,
    other_two: Rank,
)
    requires
        house_of(cards, three, two),
        house_of(below, other_three, other_two),
    ensures
        made(cards).above(made(below)) == Some(
            if three != other_three {
                three.index() - other_three.index()
            } else {
                two.index() - other_two.index()
            },
        ),
        verdict(cards, Some(made(below))).valid <==> three.index() > other_three.index() || (three
            == other_three && two.index() > other_two.index()),
{
    lemma_house_ranks(cards, three, two);
    lemma_house_ranks(below, other_three, other_two);
    lemma_made(cards);
    lemma_made(below);
    assert(three.index() == other_three.index() ==> three == other_three);
}

proof fn lemma_kicker(cards: Seq<Card>, four: Rank, one: Rank, from: int)
    requires
        0 <= from,
        of_rank(cards, one) > 0,
        four != one,
        forall|i: int|
            0 <= i < cards.len() ==> (#[trigger] cards[i]).rank == four || cards[i].rank == one,
        forall|i: int| 0 <= i < from && i < cards.len() ==> (#[trigger] cards[i]).rank == four,
    ensures
        combo::kicker_rank(cards, four.index(), from) == one.index(),
    decreases cards.len() - from,
{
    assert(one.index() != four.index());
    if from < cards.len() {
        assert(cards[from].rank == four || cards[from].rank == one);
        if cards[from].rank == four {
            lemma_kicker(cards, four, one, from + 1);
        }
    } else {
        let keep = |c: Card| c.rank == one;
        let left = cards.filter(keep);
        cards.lemma_filter_pred(keep, 0);
        assert(left.contains(left[0]));
        cards.lemma_filter_contains_rev(keep, left[0]);
        let i = choose|i: int| 0 <= i < cards.len() && cards[i] == left[0];
        assert(cards[i].rank == four);
    }
}

proof fn lemma_four_ranks(cards: Seq<Card>, four: Rank, one: Rank)
    requires
        four_of(cards, four, one),
    ensures
        combo::combo_type_of(cards) == Some(ComboType::FourKind),
        made(cards).main_rank() == four.index(),
        made(cards).second_rank() == one.index(),
{
    law_four_of_a_kind(cards);
    lemma_made(cards);
    let sorted = card::sorted_cards(cards);
    lemma_of_rank_sorted(cards, four);
    lemma_of_rank_sorted(cards, one);
    lemma_group(sorted, 4);
    let q = Rank::at(combo::rank_with_count(sorted, 4, 0).unwrap());
    if q != four {
        lemma_two_ranks(sorted, q, four);
    }
    assert forall|i: int| 0 <= i < sorted.len() implies (#[trigger] sorted[i]).rank == four
        || sorted[i].rank == one by {
        let r = sorted[i].rank;
        if r != four && r != one {
            lemma_three_ranks(sorted, four, one, r);
            let keep = |c: Card| c.rank == r;
            sorted.lemma_filter_contains(keep, i);
            assert(of_rank(sorted, r) > 0);
        }
    }
    lemma_kicker(sorted, four, one, 0);
}

/// Of two fours of a kind the one with the higher four wins, and of two with the
/// same four the one with the higher card beside it.
pub proof fn law_higher_four_wins(
    cards: Seq<Card>,
    four: Rank,
    one: Rank,
    below: Seq<Card>,
    other_four: Rank,
    other_one: Rank,
)
    requires
        four_of(cards, four, one),
        four_of(below, other_four, other_one),
    ensures
        made(cards).above(made(below)) == Some(
            if four != other_four {
                four.index() - other_four.index()
            } else {
                one.index() - other_one.index()
            },
        ),
        verdict(cards, Some(made(below))).valid <==> four.index() > other_four.index() || (four
            == other_four && one.index() > other_one.index()),
{
    lemma_four_ranks(cards, four, one);
    lemma_four_ranks(below, other_four, other_one);
    lemma_made(cards);
    lemma_made(below);
    assert(four.index() == other_four.index() ==> four == other_four);
}

/// A bomb answers every single two and no other single, and never leads.
pub proof fn law_bomb_answers_a_two(bomb: Seq<Card>, rank: Rank, single: Card)
    requires
        bomb.len() == 4,
        all_of(bomb, rank),
    ensures
        verdict(bomb, Some(made(seq![single]))).valid <==> single.rank == Rank::Two,
        !verdict(bomb, None).valid,
{
    let one = seq![single];
    law_cards_of_one_rank(bomb, rank);
    assert(all_of(one, single.rank));
    law_cards_of_one_rank(one, single.rank);
    lemma_made(one);
    lemma_sorted_all_of(one, single.rank);
    assert(made(one).cards[0].rank == single.rank);
    law_lead(bomb);
    assert(bomb[0].rank == rank);
    law_kind_and_size_must_match(bomb, made(one));
}

/// Cards are ordered by their ranks and, within a rank, by their suits.
pub proof fn law_order_of_cards(a: Card, b: Card)
    ensures
        a.key() < b.key() <==> a.rank.index() < b.rank.index() || (a.rank == b.rank
            && a.suit.index() < b.suit.index()),
        a.key() == b.key() <==> a == b,
{
    law_order_of_ranks_and_suits(a.rank, a.suit);
    law_order_of_ranks_and_suits(b.rank, b.suit);
}

/// Combinations of one kind can be compared, and others cannot.
pub proof fn law_only_kinds_compare(a: ComboModel, b: ComboModel)
    ensures
        a.above(b) is Some <==> a.combo_type == b.combo_type,
{
}

/// A combination that cards make has their kind, and the same cards in their
/// order. Cards that make none have no kind.
pub proof fn law_made_of_its_cards(cards: Seq<Card>, i: int, j: int)
    requires
        0 <= i < j < cards.len(),
    ensures
        combo::combo_of(cards) is Some <==> combo::combo_type_of(cards) is Some,
        combo::combo_of(cards) matches Some(c) ==> {
            &&& combo::combo_type_of(cards) == Some(c.combo_type)
            &&& c.cards.to_multiset() == cards.to_multiset()
            &&& c.cards.len() == cards.len()
            &&& c.cards[i].rank.index() < c.cards[j].rank.index() || (c.cards[i].rank
                == c.cards[j].rank && c.cards[i].suit.index() <= c.cards[j].suit.index())
        },
{
    law_hands_are_sorted(cards, i, j);
}

/// Suits do not matter to what may be played: one to three cards of one rank may
/// be played if and only if others of that rank, as many, may.
pub proof fn law_equal_ranks_play_alike(
    one: Seq<Card>,
    two: Seq<Card>,
    rank: Rank,
    table: ComboModel,
)
    requires
        1 <= one.len() <= 3,
        one.len() == two.len(),
        all_of(one, rank),
        all_of(two, rank),
    ensures
        verdict(one, Some(table)).valid == verdict(two, Some(table)).valid,
{
    law_cards_of_one_rank(one, rank);
    law_cards_of_one_rank(two, rank);
    lemma_made(one);
    lemma_made(two);
    lemma_sorted_all_of(one, rank);
    lemma_sorted_all_of(two, rank);
    let a = made(one).cards;
    let b = made(two).cards;
    assert(a[0].rank == rank && a[a.len() - 1].rank == rank);
    assert(b[0].rank == rank && b[b.len() - 1].rank == rank);
}

} // verus!
