//! Fair deals: nobody is dealt all four twos.
use crate::game::card;
use crate::game::card::Card;
use crate::game::card::Rank;
use crate::game::card::Suit;
use crate::game::combo;
use crate::game::rules;
use vstd::prelude::*;
use vstd::seq_lib::*;

verus! {

/// A rank of which there are cards is the rank of one of them.
proof fn lemma_rank_present(cards: Seq<Card>, rank: int)
    requires
        combo::rank_count(cards, rank) > 0,
    ensures
        exists|i: int| 0 <= i < cards.len() && (#[trigger] cards[i]).rank.index() == rank,
    decreases cards.len(),
{
    if cards.last().rank.index() == rank {
        assert(cards[cards.len() - 1].rank.index() == rank);
    } else {
        lemma_rank_present(cards.drop_last(), rank);
        let i = choose|i: int|
            0 <= i < cards.drop_last().len() && (#[trigger] cards.drop_last()[i]).rank.index()
                == rank;
        assert(cards[i].rank.index() == rank);
    }
}

/// How many cards of a rank there are is how many of each suit there are.
pub proof fn lemma_rank_count_by_suit(cards: Seq<Card>, rank: Rank)
    ensures
        combo::rank_count(cards, rank.index()) == cards.to_multiset().count(
            Card { rank, suit: Suit::Diamonds },
        ) + cards.to_multiset().count(Card { rank, suit: Suit::Clubs })
            + cards.to_multiset().count(Card { rank, suit: Suit::Hearts })
            + cards.to_multiset().count(Card { rank, suit: Suit::Spades }),
    decreases cards.len(),
{
    broadcast use group_to_multiset_ensures;

    if cards.len() > 0 {
        lemma_rank_count_by_suit(cards.drop_last(), rank);
        assert(cards =~= cards.drop_last().push(cards.last()));
        assert(cards.last().rank.index() == rank.index() ==> cards.last().rank == rank);
    }
}

/// The four hands together hold the four twos.
proof fn lemma_four_twos(deck: Seq<Card>)
    requires
        rules::is_shuffled_deck(deck),
    ensures
        combo::rank_count(rules::dealt_hand(deck, 0), 12) + combo::rank_count(
            rules::dealt_hand(deck, 1),
            12,
        ) + combo::rank_count(rules::dealt_hand(deck, 2), 12) + combo::rank_count(
            rules::dealt_hand(deck, 3),
            12,
        ) == 4,
{
    let full = card::full_deck();
    rules::lemma_hands_are_the_deck(deck);
    lemma_rank_count_by_suit(rules::dealt_hand(deck, 0), Rank::Two);
    lemma_rank_count_by_suit(rules::dealt_hand(deck, 1), Rank::Two);
    lemma_rank_count_by_suit(rules::dealt_hand(deck, 2), Rank::Two);
    lemma_rank_count_by_suit(rules::dealt_hand(deck, 3), Rank::Two);
    assert forall|c: Card| #[trigger] full.to_multiset().count(c) == 1 by {
        card::law_deck_no_duplicates();
        card::law_deck_complete(c);
        full.lemma_multiset_has_no_duplicates();
        full.to_multiset_ensures();
        assert(full.to_multiset().contains(c));
    }
    assert(full.to_multiset().count(Card { rank: Rank::Two, suit: Suit::Diamonds }) == 1);
    assert(full.to_multiset().count(Card { rank: Rank::Two, suit: Suit::Clubs }) == 1);
    assert(full.to_multiset().count(Card { rank: Rank::Two, suit: Suit::Hearts }) == 1);
    assert(full.to_multiset().count(Card { rank: Rank::Two, suit: Suit::Spades }) == 1);
}

/// The seat that gets all four twos from the deck, if there is one.
pub fn unfair_seat(deck: &Vec<Card>) -> (r: Option<usize>)
    requires
        deck.len() == 52,
    ensures
        match r {
            Some(seat) => seat < 4 && combo::rank_count(
                rules::dealt_hand(deck@, seat as int),
                12,
            ) == 4,
            None => rules::fair_deck(deck@),
        },
{
    let mut seat: usize = 0;
    while seat < 4
        invariant
            seat <= 4,
            deck.len() == 52,
            forall|s: int|
                0 <= s < seat ==> combo::rank_count(
                    #[trigger] rules::dealt_hand(deck@, s),
                    12,
                ) != 4,
        decreases 4 - seat,
    {
        let hand = rules::hand_from(deck, seat);
        if combo::count_rank(hand.as_slice(), 12) == 4 {
            return Some(seat);
        }
        seat += 1;
    }
    None
}

/// How many twos a seat gets once one of its cards has been exchanged.
proof fn lemma_twos_after(part: Seq<Card>, at: int, c: Card)
    requires
        0 <= at < part.len(),
    ensures
        combo::rank_count(card::sorted_cards(part.update(at, c)), 12) == combo::rank_count(
            card::sorted_cards(part),
            12,
        ) + (if c.rank == Rank::Two {
            1int
        } else {
            0
        }) - (if part[at].rank == Rank::Two {
            1int
        } else {
            0
        }),
{
    broadcast use group_to_multiset_ensures;

    let next = part.update(at, c);
    card::lemma_sorted_cards(part);
    card::lemma_sorted_cards(next);
    lemma_rank_count_by_suit(card::sorted_cards(part), Rank::Two);
    lemma_rank_count_by_suit(card::sorted_cards(next), Rank::Two);
    assert(part.contains(part[at]));
    to_multiset_update(part, at, c);
}

/// The seat that comes after a seat, going round the table.
pub open spec fn neighbour(seat: int) -> int {
    if seat == 3 {
        0
    } else {
        seat + 1
    }
}

/// The deck with the card at `at` and the first card of a seat exchanged.
pub open spec fn given_away(deck: Seq<Card>, at: int, seat: int) -> Seq<Card> {
    deck.update(at, deck[13 * seat]).update(13 * seat, deck[at])
}

/// Exchanges a two of the seat that would get all four with the first card of
/// the next seat.
pub fn share_twos(deck: &mut Vec<Card>, seat: usize)
    requires
        rules::is_shuffled_deck(old(deck)@),
        seat < 4,
        combo::rank_count(rules::dealt_hand(old(deck)@, seat as int), 12) == 4,
    ensures
        rules::is_shuffled_deck(final(deck)@),
        rules::fair_deck(final(deck)@),
        exists|at: int|
            13 * seat <= at < 13 * seat + 13 && old(deck)@[at].rank == Rank::Two && final(deck)@
                == #[trigger] given_away(old(deck)@, at, neighbour(seat as int)),
{
    let ghost before = deck@;
    let ghost own = before.subrange(13 * seat, 13 * seat + 13);
    proof {
        rules::lemma_shuffled_deck_len(before);
        card::lemma_sorted_cards(own);
        lemma_rank_count_by_suit(own, Rank::Two);
        lemma_rank_count_by_suit(card::sorted_cards(own), Rank::Two);
        lemma_rank_present(own, 12);
    }
    let other: usize = if seat == 3 {
        0
    } else {
        seat + 1
    };
    let mut k: usize = 0;
    while deck[13 * seat + k].rank_index() != 12
        invariant
            k < 13,
            seat < 4,
            deck@ == before,
            before.len() == 52,
            own == before.subrange(13 * seat, 13 * seat + 13),
            exists|i: int| k <= i < own.len() && (#[trigger] own[i]).rank.index() == 12,
        decreases 13 - k,
    {
        assert(own[k as int] == before[13 * seat + k]);
        k += 1;
    }
    let two = deck[13 * seat + k];
    let given = deck[13 * other];
    deck.set(13 * seat + k, given);
    deck.set(13 * other, two);
    proof {
        broadcast use group_to_multiset_ensures;

        let p = 13 * seat + k;
        let q = 13 * other as int;
        let mid = before.update(p, given);
        assert(deck@ =~= given_away(before, p, neighbour(seat as int)));
        assert(deck@ =~= mid.update(q, two));
        assert(before.contains(before[p]) && mid.contains(mid[q]));
        to_multiset_update(before, p, given);
        to_multiset_update(mid, q, two);
        assert(deck@.to_multiset() =~= before.to_multiset());
        lemma_four_twos(before);
        assert forall|s: int| 0 <= s < 4 implies combo::rank_count(
            #[trigger] rules::dealt_hand(deck@, s),
            12,
        ) != 4 by {
            let part = before.subrange(13 * s, 13 * s + 13);
            let now = deck@.subrange(13 * s, 13 * s + 13);
            if s == seat {
                assert(now =~= part.update(k as int, given));
                lemma_twos_after(part, k as int, given);
                lemma_not_a_two(before, other as int);
            } else if s == other {
                assert(now =~= part.update(0, two));
                lemma_twos_after(part, 0, two);
            } else {
                assert(now =~= part);
            }
        }
    }
}

/// A seat that gets no two gets none as its first card.
proof fn lemma_not_a_two(deck: Seq<Card>, seat: int)
    requires
        deck.len() == 52,
        0 <= seat < 4,
        combo::rank_count(rules::dealt_hand(deck, seat), 12) == 0,
    ensures
        deck[13 * seat].rank != Rank::Two,
{
    broadcast use group_to_multiset_ensures;

    let part = deck.subrange(13 * seat, 13 * seat + 13);
    card::lemma_sorted_cards(part);
    lemma_rank_count_by_suit(card::sorted_cards(part), Rank::Two);
    let c = deck[13 * seat];
    assert(part[0] == c);
    assert(part.contains(c));
    assert(part.to_multiset().contains(c));
}

} // verus!
