//! What the bots' search comes to: it finds every combination of a hand, and
//! what a bot answers with is the lowest that wins.
use crate::game::bot;
use crate::game::bot::FoundModel;
use crate::game::bot::cards_at;
use crate::game::bot::combos_in;
use crate::game::bot::flat;
use crate::game::bot::found;
use crate::game::bot::rank_places;
use crate::game::bot::suit_places;
use crate::game::card;
use crate::game::card::Card;
use crate::game::combo;
use crate::game::combo::ComboModel;
use crate::game::combo::ComboType;
use crate::game::rules;
use crate::game::sorting;
use crate::game::turn;
use vstd::prelude::*;
use vstd::relations::*;
use vstd::seq_lib::*;

verus! {

// ---------------------------------------------------------------------------
// Hands
// ---------------------------------------------------------------------------

/// A hand in order: sorted by rank and then by suit, and no card in it twice.
pub open spec fn in_order(hand: Seq<Card>) -> bool {
    forall|a: int, b: int|
        0 <= a < b < hand.len() ==> (#[trigger] hand[a]).key() < (#[trigger] hand[b]).key()
}

/// Whoever is dealt cards from a shuffled deck holds them in order.
pub proof fn law_dealt_hands_in_order(deck: Seq<Card>, seat: int)
    requires
        rules::is_shuffled_deck(deck),
        0 <= seat < 4,
    ensures
        in_order(rules::dealt_hand(deck, seat)),
{
    rules::lemma_shuffled_deck_len(deck);
    card::law_deck_no_duplicates();
    card::full_deck().lemma_multiset_has_no_duplicates();
    deck.lemma_multiset_has_no_duplicates_conv();
    let part = deck.subrange(13 * seat, 13 * seat + 13);
    let hand = rules::dealt_hand(deck, seat);
    assert(part.no_duplicates());
    card::lemma_sorted_cards(part);
    part.lemma_multiset_has_no_duplicates();
    hand.lemma_multiset_has_no_duplicates_conv();
    assert forall|a: int, b: int| 0 <= a < b < hand.len() implies (#[trigger] hand[a]).key() < (
    #[trigger] hand[b]).key() by {
        assert((card::card_leq())(hand[a], hand[b]));
        if hand[a].key() == hand[b].key() {
            card::lemma_key_injective(hand[a], hand[b]);
        }
    }
}

proof fn lemma_removed_in_order(hand: Seq<Card>, places: Seq<usize>)
    requires
        in_order(hand),
        turn::removable(hand.len() as int, places),
    ensures
        in_order(turn::removed(hand, places)),
    decreases places.len(),
{
    if places.len() > 0 {
        let at = places[0] as int;
        let rest = hand.remove(at);
        assert forall|a: int, b: int| 0 <= a < b < rest.len() implies (#[trigger] rest[a]).key() < (
        #[trigger] rest[b]).key() by {
            let i = if a < at {
                a
            } else {
                a + 1
            };
            let j = if b < at {
                b
            } else {
                b + 1
            };
            assert(rest[a] == hand[i] && rest[b] == hand[j]);
            assert(hand[i].key() < hand[j].key());
        }
        lemma_removed_in_order(rest, places.drop_first());
    }
}

proof fn lemma_filtered_in_order(hand: Seq<Card>, keep: spec_fn(Card) -> bool)
    requires
        in_order(hand),
    ensures
        in_order(hand.filter(keep)),
    decreases hand.len(),
{
    reveal(Seq::filter);
    if hand.len() > 0 {
        let rest = hand.drop_last();
        let kept = rest.filter(keep);
        assert forall|a: int, b: int| 0 <= a < b < rest.len() implies (#[trigger] rest[a]).key() < (
        #[trigger] rest[b]).key() by {
            assert(hand[a].key() < hand[b].key());
        }
        lemma_filtered_in_order(rest, keep);
        assert forall|k: int| 0 <= k < kept.len() implies (#[trigger] kept[k]).key()
            < hand.last().key() by {
            assert(kept.contains(kept[k]));
            rest.lemma_filter_contains_rev(keep, kept[k]);
            let i = choose|i: int| 0 <= i < rest.len() && rest[i] == kept[k];
            assert(hand[i].key() < hand[hand.len() - 1].key());
        }
    }
}

/// A hand in order stays so when its threes are set aside.
pub proof fn law_hands_in_order_without_threes(hand: Seq<Card>)
    requires
        in_order(hand),
    ensures
        in_order(rules::without_threes(hand)),
{
    lemma_filtered_in_order(hand, |c: Card| c.rank != card::Rank::Three);
}

/// A hand in order stays so when cards are played out of it.
pub proof fn law_hands_stay_in_order(hand: Seq<Card>, places: Seq<usize>)
    requires
        in_order(hand),
        turn::can_take(hand, places),
    ensures
        in_order(turn::hand_after(hand, places)),
{
    lemma_removed_in_order(hand, places.sort_by(sorting::descending()));
}

proof fn lemma_key_bound(hand: Seq<Card>, i: int)
    requires
        in_order(hand),
        0 <= i < hand.len(),
    ensures
        i <= hand[i].key() < 52,
    decreases i,
{
    if i > 0 {
        lemma_key_bound(hand, i - 1);
        assert(hand[i - 1].key() < hand[i].key());
    }
}

/// A hand in order is no larger than the deck.
pub proof fn lemma_hand_size(hand: Seq<Card>)
    requires
        in_order(hand),
    ensures
        hand.len() <= 52,
{
    if hand.len() > 0 {
        lemma_key_bound(hand, hand.len() - 1);
    }
}

/// Cards picked from left to right out of a hand in order are in order too.
proof fn lemma_picked_in_order(hand: Seq<Card>, f: FoundModel)
    requires
        in_order(hand),
        f.is_in(hand),
    ensures
        in_order(cards_at(hand, f.indices)),
        f.combo.cards == cards_at(hand, f.indices),
        f.combo.cards.len() == f.indices.len(),
{
    let cards = cards_at(hand, f.indices);
    assert forall|a: int, b: int| 0 <= a < b < cards.len() implies (#[trigger] cards[a]).key() < (
    #[trigger] cards[b]).key() by {
        assert(f.indices[a] < f.indices[b]);
        assert((f.indices[b] as int) < hand.len());
    }
    card::lemma_sorted_cards(cards);
    assert forall|a: int, b: int| 0 <= a < b < cards.len() implies #[trigger] (card::card_leq())(
        cards[a],
        cards[b],
    ) by {
        assert(cards[a].key() < cards[b].key());
    }
    assert(sorted_by(cards, card::card_leq()));
}

// ---------------------------------------------------------------------------
// The search finds everything
// ---------------------------------------------------------------------------

proof fn lemma_concat_contains(a: Seq<FoundModel>, b: Seq<FoundModel>, x: FoundModel)
    requires
        a.contains(x) || b.contains(x),
    ensures
        (a + b).contains(x),
{
    if a.contains(x) {
        let k = choose|k: int| 0 <= k < a.len() && a[k] == x;
        assert((a + b)[k] == x);
    } else {
        let k = choose|k: int| 0 <= k < b.len() && b[k] == x;
        assert((a + b)[a.len() + k] == x);
    }
}

pub proof fn lemma_flat_contains(
    lo: int,
    hi: int,
    f: spec_fn(int) -> Seq<FoundModel>,
    i: int,
    x: FoundModel,
)
    requires
        lo <= i < hi,
        f(i).contains(x),
    ensures
        flat(lo, hi, f).contains(x),
    decreases hi - lo,
{
    if i < hi - 1 {
        lemma_flat_contains(lo, hi - 1, f, i, x);
    }
    lemma_concat_contains(flat(lo, hi - 1, f), f(hi - 1), x);
}

proof fn lemma_found_contains(hand: Seq<Card>, f: FoundModel)
    requires
        f.is_in(hand),
    ensures
        found(hand, f.indices).contains(f),
{
    assert(found(hand, f.indices)[0] == f);
}

/// The parts of the list make up the list.
proof fn lemma_parts(hand: Seq<Card>, x: FoundModel)
    requires
        ({
            let n = hand.len() as int;
            ||| flat(0, n, bot::single_at(hand)).contains(x)
            ||| flat(0, n, bot::pairs_from(hand)).contains(x)
            ||| flat(0, 4, bot::straights_in(hand)).contains(x)
            ||| flat(0, n, bot::five_i(hand)).contains(x)
            ||| flat(0, 13, bot::bomb_of(hand)).contains(x)
        }),
    ensures
        combos_in(hand).contains(x),
{
    let n = hand.len() as int;
    let a = flat(0, n, bot::single_at(hand));
    let b = flat(0, n, bot::pairs_from(hand));
    let c = flat(0, 4, bot::straights_in(hand));
    let d = flat(0, n, bot::five_i(hand));
    let e = flat(0, 13, bot::bomb_of(hand));
    if a.contains(x) || b.contains(x) {
        lemma_concat_contains(a, b, x);
    }
    if (a + b).contains(x) || c.contains(x) {
        lemma_concat_contains(a + b, c, x);
    }
    if (a + b + c).contains(x) || d.contains(x) {
        lemma_concat_contains(a + b + c, d, x);
    }
    lemma_concat_contains(a + b + c + d, e, x);
}

proof fn lemma_finds_single(hand: Seq<Card>, f: FoundModel)
    requires
        f.is_in(hand),
        f.indices.len() == 1,
    ensures
        combos_in(hand).contains(f),
{
    let i = f.indices[0] as int;
    assert(f.indices =~= seq![i as usize]);
    lemma_found_contains(hand, f);
    assert((bot::single_at(hand))(i) == found(hand, f.indices));
    lemma_flat_contains(0, hand.len() as int, bot::single_at(hand), i, f);
    lemma_parts(hand, f);
}

proof fn lemma_finds_pair(hand: Seq<Card>, f: FoundModel)
    requires
        f.is_in(hand),
        f.indices.len() == 2 || f.indices.len() == 3,
        combo::same_rank(cards_at(hand, f.indices)),
    ensures
        combos_in(hand).contains(f),
{
    let n = hand.len() as int;
    let cards = cards_at(hand, f.indices);
    let i = f.indices[0] as int;
    let j = f.indices[1] as int;
    assert(f.indices[0] < f.indices[1]);
    assert(cards[1].rank == cards[0].rank);
    lemma_found_contains(hand, f);
    let pair = found(hand, seq![i as usize, j as usize]);
    let triples = flat(j + 1, n, bot::triple_at(hand, i, j));
    assert((bot::pair_at(hand, i))(j) == pair + triples);
    if f.indices.len() == 2 {
        assert(f.indices =~= seq![i as usize, j as usize]);
    } else {
        let k = f.indices[2] as int;
        assert(f.indices =~= seq![i as usize, j as usize, k as usize]);
        assert(f.indices[1] < f.indices[2]);
        assert(cards[2].rank == cards[0].rank);
        assert((bot::triple_at(hand, i, j))(k) == found(hand, f.indices));
        lemma_flat_contains(j + 1, n, bot::triple_at(hand, i, j), k, f);
    }
    lemma_concat_contains(pair, triples, f);
    lemma_flat_contains(i + 1, n, bot::pair_at(hand, i), j, f);
    assert((bot::pairs_from(hand))(i) == flat(i + 1, n, bot::pair_at(hand, i)));
    lemma_flat_contains(0, n, bot::pairs_from(hand), i, f);
    lemma_parts(hand, f);
}

proof fn lemma_finds_five(hand: Seq<Card>, f: FoundModel)
    requires
        f.is_in(hand),
        f.indices.len() == 5,
    ensures
        flat(0, hand.len() as int, bot::five_i(hand)).contains(f),
{
    let n = hand.len() as int;
    let i = f.indices[0] as int;
    let j = f.indices[1] as int;
    let k = f.indices[2] as int;
    let l = f.indices[3] as int;
    let m = f.indices[4] as int;
    assert(i < j < k < l < m < n);
    assert(f.indices =~= seq![i as usize, j as usize, k as usize, l as usize, m as usize]);
    lemma_found_contains(hand, f);
    assert((bot::five_m(hand, i, j, k, l))(m) == found(hand, f.indices));
    lemma_flat_contains(l + 1, n, bot::five_m(hand, i, j, k, l), m, f);
    assert((bot::five_l(hand, i, j, k))(l) == flat(l + 1, n, bot::five_m(hand, i, j, k, l)));
    lemma_flat_contains(k + 1, n, bot::five_l(hand, i, j, k), l, f);
    assert((bot::five_k(hand, i, j))(k) == flat(k + 1, n, bot::five_l(hand, i, j, k)));
    lemma_flat_contains(j + 1, n, bot::five_k(hand, i, j), k, f);
    assert((bot::five_j(hand, i))(j) == flat(j + 1, n, bot::five_k(hand, i, j)));
    lemma_flat_contains(i + 1, n, bot::five_j(hand, i), j, f);
    assert((bot::five_i(hand))(i) == flat(i + 1, n, bot::five_j(hand, i)));
    lemma_flat_contains(0, n, bot::five_i(hand), i, f);
}

/// Where no card from `a` up to `b` has the rank, the rank's places up to `b`
/// are those up to `a`.
proof fn lemma_rank_gap(hand: Seq<Card>, rank: int, a: int, b: int)
    requires
        0 <= a <= b <= hand.len(),
        forall|i: int| a <= i < b ==> (#[trigger] hand[i]).rank.index() != rank,
    ensures
        rank_places(hand, rank, b) == rank_places(hand, rank, a),
    decreases b,
{
    if a < b {
        assert(hand[b - 1].rank.index() != rank);
        lemma_rank_gap(hand, rank, a, b - 1);
    }
}

proof fn lemma_finds_bomb(hand: Seq<Card>, f: FoundModel)
    requires
        in_order(hand),
        f.is_in(hand),
        f.indices.len() == 4,
        combo::same_rank(cards_at(hand, f.indices)),
    ensures
        combos_in(hand).contains(f),
{
    let n = hand.len() as int;
    lemma_hand_size(hand);
    let cards = cards_at(hand, f.indices);
    let p = f.indices[0] as int;
    let q = f.indices[1] as int;
    let r = f.indices[2] as int;
    let s = f.indices[3] as int;
    assert(p < q < r < s < n);
    assert(cards[1].rank == cards[0].rank && cards[2].rank == cards[0].rank && cards[3].rank
        == cards[0].rank);
    let rank = hand[p].rank.index();
    assert(hand[p].key() < hand[q].key() < hand[r].key() < hand[s].key());
    assert(hand[p].key() == 4 * rank && hand[s].key() == 4 * rank + 3);
    assert(q == p + 1) by {
        if p + 1 < q {
            assert(hand[p].key() < hand[p + 1].key() < hand[q].key());
        }
    }
    assert(r == q + 1) by {
        if q + 1 < r {
            assert(hand[q].key() < hand[q + 1].key() < hand[r].key());
        }
    }
    assert(s == r + 1) by {
        if r + 1 < s {
            assert(hand[r].key() < hand[r + 1].key() < hand[s].key());
        }
    }
    assert forall|i: int| 0 <= i < p implies (#[trigger] hand[i]).rank.index() != rank by {
        assert(hand[i].key() < hand[p].key());
    }
    assert forall|i: int| s + 1 <= i < n implies (#[trigger] hand[i]).rank.index() != rank by {
        assert(hand[s].key() < hand[i].key());
    }
    lemma_rank_gap(hand, rank, 0, p);
    lemma_rank_gap(hand, rank, s + 1, n);
    reveal_with_fuel(rank_places, 5);
    assert(rank_places(hand, rank, 0) =~= Seq::<usize>::empty());
    assert(rank_places(hand, rank, p + 1) =~= seq![p as usize]);
    assert(rank_places(hand, rank, p + 2) =~= seq![p as usize, q as usize]);
    assert(rank_places(hand, rank, p + 3) =~= seq![p as usize, q as usize, r as usize]);
    assert(rank_places(hand, rank, n) =~= f.indices);
    lemma_found_contains(hand, f);
    assert((bot::bomb_of(hand))(rank) == found(hand, f.indices));
    lemma_flat_contains(0, 13, bot::bomb_of(hand), rank, f);
    lemma_parts(hand, f);
}

/// Where no card from `a` up to `b` has the suit, the suit's places up to `b`
/// are those up to `a`.
proof fn lemma_suit_gap(hand: Seq<Card>, suit: int, a: int, b: int)
    requires
        0 <= a <= b <= hand.len(),
        forall|i: int| a <= i < b ==> (#[trigger] hand[i]).suit.index() != suit,
    ensures
        suit_places(hand, suit, b) == suit_places(hand, suit, a),
    decreases b,
{
    if a < b {
        assert(hand[b - 1].suit.index() != suit);
        lemma_suit_gap(hand, suit, a, b - 1);
    }
}

/// The places of a suit up to some point are the beginning of its places up to
/// a later one.
proof fn lemma_suit_prefix(hand: Seq<Card>, suit: int, a: int, b: int)
    requires
        0 <= a <= b <= hand.len(),
    ensures
        suit_places(hand, suit, a).len() <= suit_places(hand, suit, b).len(),
        forall|k: int|
            0 <= k < suit_places(hand, suit, a).len() ==> #[trigger] suit_places(hand, suit, b)[k]
                == suit_places(hand, suit, a)[k],
    decreases b,
{
    if a < b {
        lemma_suit_prefix(hand, suit, a, b - 1);
    }
}

/// The cards of a straight that lie in order have ranks that follow one another.
proof fn lemma_straight_steps(cards: Seq<Card>, k: int)
    requires
        in_order(cards),
        combo::suited_straight(cards),
        0 <= k < cards.len() - 1,
    ensures
        cards[k + 1].rank.index() == cards[k].rank.index() + 1,
{
    let ranks = combo::card_ranks(cards);
    let n = cards.len() as int;
    let lo = choose|lo: int| #[trigger] combo::all_within(ranks, lo, lo + ranks.len());
    assert forall|i: int, j: int| 0 <= i < j < n implies (#[trigger] cards[i]).rank.index() < (
    #[trigger] cards[j]).rank.index() by {
        assert(cards[i].suit == cards[0].suit && cards[j].suit == cards[0].suit);
        assert(cards[i].key() < cards[j].key());
    }
    assert(lo <= ranks[0] && ranks[n - 1] < lo + n);
    lemma_rising(cards, 0, k);
    lemma_rising(cards, k + 1, n - 1);
    assert(cards[k].rank.index() < cards[k + 1].rank.index());
}

/// Ranks that rise from card to card rise by at least one each.
proof fn lemma_rising(cards: Seq<Card>, a: int, b: int)
    requires
        0 <= a <= b < cards.len(),
        forall|i: int, j: int|
            0 <= i < j < cards.len() ==> (#[trigger] cards[i]).rank.index() < (
            #[trigger] cards[j]).rank.index(),
    ensures
        cards[b].rank.index() >= cards[a].rank.index() + (b - a),
    decreases b - a,
{
    if a < b {
        lemma_rising(cards, a, b - 1);
        assert(cards[b - 1].rank.index() < cards[b].rank.index());
    }
}

/// The places of a straight are neighbours among the places of its suit.
proof fn lemma_straight_places(hand: Seq<Card>, f: FoundModel, k: int)
    requires
        in_order(hand),
        f.is_in(hand),
        combo::suited_straight(cards_at(hand, f.indices)),
        0 <= k < f.indices.len(),
    ensures
        ({
            let suit = hand[f.indices[0] as int].suit.index();
            let start = suit_places(hand, suit, f.indices[0] as int).len();
            let places = suit_places(hand, suit, hand.len() as int);
            &&& suit_places(hand, suit, f.indices[k] as int).len() == start + k
            &&& places.len() > start + k
            &&& places[start + k] == f.indices[k]
        }),
    decreases k,
{
    let suit = hand[f.indices[0] as int].suit.index();
    let cards = cards_at(hand, f.indices);
    let at = f.indices[k] as int;
    assert(cards[k].suit == cards[0].suit);
    assert(at < hand.len());
    if k > 0 {
        let prev = f.indices[k - 1] as int;
        lemma_straight_places(hand, f, k - 1);
        lemma_picked_in_order(hand, f);
        lemma_straight_steps(cards, k - 1);
        assert(cards[k - 1].suit == cards[0].suit);
        assert(f.indices[k - 1] < f.indices[k]);
        assert forall|i: int| prev + 1 <= i < at implies (#[trigger] hand[i]).suit.index()
            != suit by {
            assert(hand[prev].key() < hand[i].key() < hand[at].key());
        }
        lemma_suit_gap(hand, suit, prev + 1, at);
    }
    lemma_suit_prefix(hand, suit, at + 1, hand.len() as int);
    assert(suit_places(hand, suit, at + 1) == suit_places(hand, suit, at).push(at as usize));
}

pub proof fn lemma_finds_straight(hand: Seq<Card>, f: FoundModel)
    requires
        in_order(hand),
        f.is_in(hand),
        3 <= f.indices.len() <= 5,
        combo::suited_straight(cards_at(hand, f.indices)),
    ensures
        combos_in(hand).contains(f),
        flat(0, 4, bot::straights_in(hand)).contains(f),
{
    lemma_hand_size(hand);
    let suit = hand[f.indices[0] as int].suit.index();
    let len = f.indices.len() as int;
    let places = suit_places(hand, suit, hand.len() as int);
    let start = suit_places(hand, suit, f.indices[0] as int).len() as int;
    lemma_straight_places(hand, f, len - 1);
    assert forall|k: int| 0 <= k < len implies places[start + k] == f.indices[k] by {
        lemma_straight_places(hand, f, k);
    }
    assert(places.subrange(start, start + len) =~= f.indices);
    lemma_found_contains(hand, f);
    assert((bot::window_at(hand, places, len))(start) == found(hand, f.indices));
    lemma_flat_contains(0, places.len() - len + 1, bot::window_at(hand, places, len), start, f);
    let top = bot::longest_window(places.len() as int) + 1;
    assert((bot::windows_of(hand, places))(len) == flat(
        0,
        places.len() - len + 1,
        bot::window_at(hand, places, len),
    ));
    lemma_flat_contains(3, top, bot::windows_of(hand, places), len, f);
    assert((bot::straights_in(hand))(suit) == flat(3, top, bot::windows_of(hand, places)));
    lemma_flat_contains(0, 4, bot::straights_in(hand), suit, f);
    lemma_parts(hand, f);
}

/// The search leaves nothing out: whatever combination lies in a hand in order
/// is in the list.
pub proof fn law_combos_complete(hand: Seq<Card>, f: FoundModel)
    requires
        in_order(hand),
        f.is_in(hand),
    ensures
        combos_in(hand).contains(f),
{
    let cards = cards_at(hand, f.indices);
    assert(cards.len() == f.indices.len());
    if cards.len() == 1 {
        lemma_finds_single(hand, f);
    } else if cards.len() == 5 {
        lemma_finds_five(hand, f);
        lemma_parts(hand, f);
    } else if combo::same_rank(cards) {
        if cards.len() == 4 {
            lemma_finds_bomb(hand, f);
        } else {
            lemma_finds_pair(hand, f);
        }
    } else {
        lemma_finds_straight(hand, f);
    }
}

// ---------------------------------------------------------------------------
// Weaker scores lower
// ---------------------------------------------------------------------------

/// Sorting brings in no card.
pub proof fn lemma_sorted_member(cards: Seq<Card>, k: int)
    requires
        0 <= k < cards.len(),
    ensures
        cards.contains(card::sorted_cards(cards)[k]),
{
    broadcast use group_to_multiset_ensures;

    card::lemma_sorted_cards(cards);
    let sorted = card::sorted_cards(cards);
    assert(sorted.contains(sorted[k]));
    assert(sorted.to_multiset().contains(sorted[k]));
}

/// What a strength adds to ten times the rank that combinations of the kind and
/// size are compared by first.
pub open spec fn base_strength(combo: ComboModel) -> int {
    match combo.combo_type {
        ComboType::Single => 900,
        ComboType::Pair => 2,
        ComboType::Triple => 3,
        ComboType::Straight => combo.cards.len() as int,
        ComboType::FullHouse => 50,
        ComboType::FourKind => 100,
        ComboType::Bomb => 9000,
    }
}

pub proof fn lemma_strength_by_rank(hand: Seq<Card>, f: FoundModel)
    requires
        f.is_in(hand),
    ensures
        f.strength(hand) == f.combo.main_rank() * 10 + base_strength(f.combo),
{
    let cards = cards_at(hand, f.indices);
    card::lemma_sorted_cards(cards);
    assert(cards[0] == hand[f.indices[0] as int]);
    lemma_sorted_member(cards, 0);
    lemma_sorted_member(cards, cards.len() - 1);
    let low = choose|k: int| 0 <= k < cards.len() && cards[k] == f.combo.cards[0];
    let high = choose|k: int| 0 <= k < cards.len() && cards[k] == f.combo.cards.last();
    assert(combo::same_rank(cards) ==> cards[low].rank == cards[0].rank && cards[high].rank
        == cards[0].rank);
}

/// Of two combinations of one kind and size, the one with the lower strength is
/// below the other.
pub proof fn law_lower_strength_is_below(hand: Seq<Card>, a: FoundModel, b: FoundModel)
    requires
        a.is_in(hand),
        b.is_in(hand),
        a.combo.combo_type == b.combo.combo_type,
        a.combo.cards.len() == b.combo.cards.len(),
        a.strength(hand) < b.strength(hand),
    ensures
        a.combo.above(b.combo) matches Some(d) && d < 0,
{
    lemma_strength_by_rank(hand, a);
    lemma_strength_by_rank(hand, b);
}

// ---------------------------------------------------------------------------
// The order of the search
// ---------------------------------------------------------------------------

/// Do the five places `a` come before the five places `b`: by the first that
/// differs?
spec fn comes_before(a: Seq<usize>, b: Seq<usize>) -> bool {
    ||| a[0] < b[0]
    ||| a[0] == b[0] && a[1] < b[1]
    ||| a[0] == b[0] && a[1] == b[1] && a[2] < b[2]
    ||| a[0] == b[0] && a[1] == b[1] && a[2] == b[2] && a[3] < b[3]
    ||| a[0] == b[0] && a[1] == b[1] && a[2] == b[2] && a[3] == b[3] && a[4] < b[4]
}

/// Each entry comes before those that follow.
spec fn rising(list: Seq<FoundModel>) -> bool {
    forall|a: int, b: int|
        0 <= a < b < list.len() ==> comes_before(
            (#[trigger] list[a]).indices,
            (#[trigger] list[b]).indices,
        )
}

/// Each entry has five places, and these are the first of them.
spec fn begin_with(list: Seq<FoundModel>, start: Seq<usize>) -> bool {
    forall|k: int|
        0 <= k < list.len() ==> (#[trigger] list[k]).indices.len() == 5
            && list[k].indices.take(start.len() as int) == start
}

proof fn lemma_flat_rising(
    start: Seq<usize>,
    lo: int,
    hi: int,
    f: spec_fn(int) -> Seq<FoundModel>,
)
    requires
        start.len() < 5,
        0 <= lo,
        hi <= usize::MAX,
        forall|i: int|
            lo <= i < hi ==> rising(#[trigger] f(i)) && begin_with(f(i), start.push(i as usize)),
    ensures
        rising(flat(lo, hi, f)),
        begin_with(flat(lo, hi, f), start),
        forall|k: int|
            0 <= k < flat(lo, hi, f).len() ==> (#[trigger] flat(lo, hi, f)[k]).indices[start.len() as int]
                < hi,
    decreases hi - lo,
{
    if lo < hi {
        lemma_flat_rising(start, lo, hi - 1, f);
        let a = flat(lo, hi - 1, f);
        let b = f(hi - 1);
        let d = start.len() as int;
        let longer = start.push((hi - 1) as usize);
        assert forall|k: int| 0 <= k < b.len() implies (#[trigger] b[k]).indices.take(d) == start
            && b[k].indices[d] == hi - 1 by {
            assert(b[k].indices.take(d + 1) == longer);
            assert(b[k].indices[d] == b[k].indices.take(d + 1)[d]);
            assert(b[k].indices.take(d) =~= longer.take(d));
            assert(longer.take(d) =~= start);
        }
        assert forall|k: int| 0 <= k < (a + b).len() implies (#[trigger] (a + b)[k]).indices.len()
            == 5 && (a + b)[k].indices.take(d) == start && (a + b)[k].indices[d] < hi by {
            if k < a.len() {
                assert((a + b)[k] == a[k]);
            } else {
                assert((a + b)[k] == b[k - a.len()]);
            }
        }
        assert forall|i: int, j: int| 0 <= i < j < (a + b).len() implies comes_before(
            (#[trigger] (a + b)[i]).indices,
            (#[trigger] (a + b)[j]).indices,
        ) by {
            if j < a.len() {
                assert((a + b)[i] == a[i] && (a + b)[j] == a[j]);
            } else if i >= a.len() {
                assert((a + b)[i] == b[i - a.len()] && (a + b)[j] == b[j - a.len()]);
            } else {
                let x = a[i].indices;
                let y = b[j - a.len()].indices;
                assert((a + b)[i] == a[i] && (a + b)[j] == b[j - a.len()]);
                assert(x.take(d) == y.take(d));
                assert forall|q: int| 0 <= q < d implies x[q] == y[q] by {
                    assert(x.take(d)[q] == y.take(d)[q]);
                }
                assert(x[d] < y[d]);
                assert(d == 0 || d == 1 || d == 2 || d == 3 || d == 4);
            }
        }
        assert(flat(lo, hi, f) == a + b);
    }
}

/// The combinations of any five cards are found in the order of their places.
proof fn lemma_fives_rising(hand: Seq<Card>)
    requires
        hand.len() <= usize::MAX,
    ensures
        rising(flat(0, hand.len() as int, bot::five_i(hand))),
{
    let n = hand.len() as int;
    let none = Seq::<usize>::empty();
    assert forall|i: int| 0 <= i < n implies rising(#[trigger] (bot::five_i(hand))(i))
        && begin_with((bot::five_i(hand))(i), none.push(i as usize)) by {
        let one = none.push(i as usize);
        assert forall|j: int| i + 1 <= j < n implies rising(#[trigger] (bot::five_j(hand, i))(j))
            && begin_with((bot::five_j(hand, i))(j), one.push(j as usize)) by {
            let two = one.push(j as usize);
            assert forall|k: int| j + 1 <= k < n implies rising(
                #[trigger] (bot::five_k(hand, i, j))(k),
            ) && begin_with((bot::five_k(hand, i, j))(k), two.push(k as usize)) by {
                let three = two.push(k as usize);
                assert forall|l: int| k + 1 <= l < n implies rising(
                    #[trigger] (bot::five_l(hand, i, j, k))(l),
                ) && begin_with((bot::five_l(hand, i, j, k))(l), three.push(l as usize)) by {
                    let four = three.push(l as usize);
                    assert forall|m: int| l + 1 <= m < n implies rising(
                        #[trigger] (bot::five_m(hand, i, j, k, l))(m),
                    ) && begin_with((bot::five_m(hand, i, j, k, l))(m), four.push(m as usize)) by {
                        let all = seq![i as usize, j as usize, k as usize, l as usize, m as usize];
                        assert(all =~= four.push(m as usize));
                        assert(all.take(5) =~= all);
                    }
                    lemma_flat_rising(four, l + 1, n, bot::five_m(hand, i, j, k, l));
                }
                lemma_flat_rising(three, k + 1, n, bot::five_l(hand, i, j, k));
            }
            lemma_flat_rising(two, j + 1, n, bot::five_k(hand, i, j));
        }
        lemma_flat_rising(one, i + 1, n, bot::five_j(hand, i));
    }
    lemma_flat_rising(none, 0, n, bot::five_i(hand));
}

/// The weakest of the entries that fit: no entry that fits is weaker, and those
/// before it are stronger.
pub proof fn lemma_weakest_fitting(
    hand: Seq<Card>,
    list: Seq<FoundModel>,
    fits: spec_fn(FoundModel) -> bool,
) -> (at: int)
    requires
        bot::weakest(hand, list.filter(fits)) is Some,
    ensures
        0 <= at < list.len(),
        fits(list[at]),
        bot::weakest(hand, list.filter(fits)) == Some(list[at]),
        forall|k: int|
            0 <= k < list.len() && fits(#[trigger] list[k]) ==> list[at].strength(hand)
                <= list[k].strength(hand),
        forall|k: int|
            0 <= k < at && fits(#[trigger] list[k]) ==> list[at].strength(hand)
                < list[k].strength(hand),
    decreases list.len(),
{
    reveal(Seq::filter);
    let last = list.len() - 1;
    let rest = list.drop_last();
    let chosen = list.filter(fits);
    let before = rest.filter(fits);
    if fits(list.last()) {
        assert(chosen =~= before.push(list.last()));
        assert(chosen.drop_last() =~= before);
        match bot::weakest(hand, before) {
            None => {
                bot::law_weakest(hand, before);
                assert forall|k: int| 0 <= k < list.len() && fits(#[trigger] list[k]) implies k
                    == last by {
                    if k < last {
                        assert(rest[k] == list[k]);
                        rest.lemma_filter_contains(fits, k);
                    }
                }
                last
            },
            Some(best) => {
                let at = lemma_weakest_fitting(hand, rest, fits);
                assert forall|k: int| 0 <= k < last implies #[trigger] list[k] == rest[k] by {}
                if list.last().strength(hand) < best.strength(hand) {
                    last
                } else {
                    at
                }
            },
        }
    } else {
        assert(chosen =~= before);
        let at = lemma_weakest_fitting(hand, rest, fits);
        assert forall|k: int| 0 <= k < last implies #[trigger] list[k] == rest[k] by {}
        at
    }
}

// ---------------------------------------------------------------------------
// Five cards with a group among them
// ---------------------------------------------------------------------------

pub proof fn lemma_rank_with_count(cards: Seq<Card>, count: nat, from: int)
    ensures
        match combo::rank_with_count(cards, count, from) {
            Some(r) => from <= r < 13 && combo::rank_count(cards, r) == count,
            None => forall|r: int|
                from <= r < 13 ==> #[trigger] combo::rank_count(cards, r) != count,
        },
    decreases 13 - from,
{
    if from < 13 {
        lemma_rank_with_count(cards, count, from + 1);
    }
}

/// 1 where the card has the rank, else 0.
pub open spec fn hit(c: Card, rank: int) -> nat {
    if c.rank.index() == rank {
        1
    } else {
        0
    }
}

pub proof fn lemma_count_five(cards: Seq<Card>, rank: int)
    requires
        cards.len() == 5,
    ensures
        combo::rank_count(cards, rank) == hit(cards[0], rank) + hit(cards[1], rank) + hit(
            cards[2],
            rank,
        ) + hit(cards[3], rank) + hit(cards[4], rank),
{
    reveal_with_fuel(combo::rank_count, 6);
}

/// The rank of the `i`th card.
spec fn rank_at(cards: Seq<Card>, i: int) -> int {
    cards[i].rank.index()
}

/// Five cards whose ranks never fall.
spec fn five_sorted(cards: Seq<Card>) -> bool {
    &&& cards.len() == 5
    &&& rank_at(cards, 0) <= rank_at(cards, 1) <= rank_at(cards, 2) <= rank_at(cards, 3)
        <= rank_at(cards, 4)
}

/// Five sorted cards of which three have the rank `main` and two `second`.
spec fn three_and_two(cards: Seq<Card>, main: int, second: int) -> bool {
    if second < main {
        rank_at(cards, 0) == rank_at(cards, 1) == second && rank_at(cards, 2) == rank_at(cards, 3)
            == rank_at(cards, 4) == main
    } else {
        second > main && rank_at(cards, 0) == rank_at(cards, 1) == rank_at(cards, 2) == main
            && rank_at(cards, 3) == rank_at(cards, 4) == second
    }
}

/// Five sorted cards of which four have the rank `main` and one `second`.
spec fn four_and_one(cards: Seq<Card>, main: int, second: int) -> bool {
    if second < main {
        rank_at(cards, 0) == second && rank_at(cards, 1) == rank_at(cards, 2) == rank_at(cards, 3)
            == rank_at(cards, 4) == main
    } else {
        second > main && rank_at(cards, 0) == rank_at(cards, 1) == rank_at(cards, 2) == rank_at(
            cards,
            3,
        ) == main && rank_at(cards, 4) == second
    }
}

/// What a full house of sorted cards looks like.
proof fn lemma_full_house_shape(cards: Seq<Card>)
    requires
        five_sorted(cards),
        combo::combo_type_of(cards) == Some(ComboType::FullHouse),
    ensures
        three_and_two(cards, combo::group_rank(cards, 3), combo::group_rank(cards, 2)),
{
    let t = combo::group_rank(cards, 3);
    let p = combo::group_rank(cards, 2);
    lemma_rank_with_count(cards, 3, 0);
    lemma_rank_with_count(cards, 2, 0);
    lemma_count_five(cards, t);
    lemma_count_five(cards, p);
}

/// Cards that look like a full house are one.
proof fn lemma_full_house_from_shape(cards: Seq<Card>, main: int, second: int)
    requires
        cards.len() == 5,
        three_and_two(cards, main, second),
    ensures
        combo::combo_type_of(cards) == Some(ComboType::FullHouse),
        combo::group_rank(cards, 3) == main,
        combo::group_rank(cards, 2) == second,
{
    lemma_count_five(cards, main);
    lemma_count_five(cards, second);
    lemma_rank_with_count(cards, 2, 0);
    lemma_rank_with_count(cards, 3, 0);
    lemma_rank_with_count(cards, 4, 0);
    lemma_count_five(cards, combo::group_rank(cards, 2));
    lemma_count_five(cards, combo::group_rank(cards, 3));
    lemma_count_five(cards, combo::group_rank(cards, 4));
}

/// What four of a kind among sorted cards look like.
proof fn lemma_four_kind_shape(cards: Seq<Card>)
    requires
        five_sorted(cards),
        combo::combo_type_of(cards) == Some(ComboType::FourKind),
    ensures
        four_and_one(
            cards,
            combo::group_rank(cards, 4),
            combo::kicker_rank(cards, combo::group_rank(cards, 4), 0),
        ),
{
    let q = combo::group_rank(cards, 4);
    lemma_rank_with_count(cards, 4, 0);
    lemma_count_five(cards, q);
    reveal_with_fuel(combo::kicker_rank, 6);
}

/// Cards that look like four of a kind are.
proof fn lemma_four_kind_from_shape(cards: Seq<Card>, main: int, second: int)
    requires
        cards.len() == 5,
        four_and_one(cards, main, second),
    ensures
        combo::combo_type_of(cards) == Some(ComboType::FourKind),
        combo::group_rank(cards, 4) == main,
        combo::kicker_rank(cards, main, 0) == second,
{
    lemma_count_five(cards, main);
    lemma_rank_with_count(cards, 4, 0);
    lemma_count_five(cards, combo::group_rank(cards, 4));
    reveal_with_fuel(combo::kicker_rank, 6);
}

/// Is this a full house or four of a kind?
spec fn is_grouped(combo: ComboModel) -> bool {
    combo.combo_type == ComboType::FullHouse || combo.combo_type == ComboType::FourKind
}

/// What a full house or four of a kind in a hand in order looks like.
proof fn lemma_grouped_shape(hand: Seq<Card>, f: FoundModel)
    requires
        in_order(hand),
        f.is_in(hand),
        is_grouped(f.combo),
    ensures
        f.indices.len() == 5,
        f.combo.cards == cards_at(hand, f.indices),
        five_sorted(f.combo.cards),
        f.combo.combo_type == ComboType::FullHouse ==> three_and_two(
            f.combo.cards,
            f.combo.main_rank(),
            f.combo.second_rank(),
        ),
        f.combo.combo_type == ComboType::FourKind ==> four_and_one(
            f.combo.cards,
            f.combo.main_rank(),
            f.combo.second_rank(),
        ),
{
    lemma_picked_in_order(hand, f);
    let cards = f.combo.cards;
    assert(cards.len() == 5);
    assert(cards[0].key() < cards[1].key() < cards[2].key() < cards[3].key() < cards[4].key());
    if f.combo.combo_type == ComboType::FullHouse {
        lemma_full_house_shape(cards);
    } else {
        lemma_four_kind_shape(cards);
    }
}

// ---------------------------------------------------------------------------
// Where in the list the groups are
// ---------------------------------------------------------------------------

proof fn lemma_flat_all(
    lo: int,
    hi: int,
    f: spec_fn(int) -> Seq<FoundModel>,
    p: spec_fn(FoundModel) -> bool,
)
    requires
        forall|i: int, k: int| lo <= i < hi && 0 <= k < f(i).len() ==> p(#[trigger] f(i)[k]),
    ensures
        forall|k: int| 0 <= k < flat(lo, hi, f).len() ==> p(#[trigger] flat(lo, hi, f)[k]),
    decreases hi - lo,
{
    if lo < hi {
        lemma_flat_all(lo, hi - 1, f, p);
        let a = flat(lo, hi - 1, f);
        let b = f(hi - 1);
        assert forall|k: int| 0 <= k < (a + b).len() implies p(#[trigger] (a + b)[k]) by {
            if k < a.len() {
                assert((a + b)[k] == a[k]);
            } else {
                assert((a + b)[k] == b[k - a.len()]);
            }
        }
    }
}

proof fn lemma_suit_of_places(hand: Seq<Card>, suit: int, n: int)
    requires
        n <= hand.len() <= usize::MAX,
    ensures
        forall|k: int|
            0 <= k < suit_places(hand, suit, n).len() ==> hand[(#[trigger] suit_places(
                hand,
                suit,
                n,
            )[k]) as int].suit.index() == suit,
    decreases n,
{
    if n > 0 {
        lemma_suit_of_places(hand, suit, n - 1);
    }
}

/// The places of fewer than five cards, or of cards of one suit.
spec fn no_group(hand: Seq<Card>) -> spec_fn(FoundModel) -> bool {
    |x: FoundModel| x.indices.len() < 5 || combo::same_suit(cards_at(hand, x.indices))
}

proof fn lemma_pairs_no_group(hand: Seq<Card>)
    ensures
        forall|k: int|
            0 <= k < flat(0, hand.len() as int, bot::pairs_from(hand)).len() ==> (no_group(hand))(
                #[trigger] flat(0, hand.len() as int, bot::pairs_from(hand))[k],
            ),
{
    let n = hand.len() as int;
    let p = no_group(hand);
    assert forall|i: int, q: int|
        0 <= i < n && 0 <= q < (bot::pairs_from(hand))(i).len() implies p(
        #[trigger] (bot::pairs_from(hand))(i)[q],
    ) by {
        assert forall|j: int, r: int|
            i + 1 <= j < n && 0 <= r < (bot::pair_at(hand, i))(j).len() implies p(
            #[trigger] (bot::pair_at(hand, i))(j)[r],
        ) by {
            let pair = found(hand, seq![i as usize, j as usize]);
            let triples = flat(j + 1, n, bot::triple_at(hand, i, j));
            lemma_flat_all(j + 1, n, bot::triple_at(hand, i, j), p);
            if hand[i].rank == hand[j].rank {
                if r < pair.len() {
                    assert((pair + triples)[r] == pair[r]);
                } else {
                    assert((pair + triples)[r] == triples[r - pair.len()]);
                }
            }
        }
        lemma_flat_all(i + 1, n, bot::pair_at(hand, i), p);
    }
    lemma_flat_all(0, n, bot::pairs_from(hand), p);
}

proof fn lemma_straights_no_group(hand: Seq<Card>)
    requires
        hand.len() <= usize::MAX,
    ensures
        forall|k: int|
            0 <= k < flat(0, 4, bot::straights_in(hand)).len() ==> (no_group(hand))(
                #[trigger] flat(0, 4, bot::straights_in(hand))[k],
            ),
{
    let p = no_group(hand);
    assert forall|suit: int, q: int|
        0 <= suit < 4 && 0 <= q < (bot::straights_in(hand))(suit).len() implies p(
        #[trigger] (bot::straights_in(hand))(suit)[q],
    ) by {
        let places = suit_places(hand, suit, hand.len() as int);
        lemma_suit_of_places(hand, suit, hand.len() as int);
        let top = bot::longest_window(places.len() as int) + 1;
        assert forall|len: int, r: int|
            3 <= len < top && 0 <= r < (bot::windows_of(hand, places))(len).len() implies p(
            #[trigger] (bot::windows_of(hand, places))(len)[r],
        ) by {
            let f = bot::window_at(hand, places, len);
            assert forall|start: int, t: int|
                0 <= start < places.len() - len + 1 && 0 <= t < f(start).len() implies p(
                #[trigger] f(start)[t],
            ) by {
                let window = places.subrange(start, start + len);
                let cards = cards_at(hand, window);
                assert(f(start) == found(hand, window));
                assert(f(start)[t].indices == window);
                assert forall|c: int| 0 <= c < cards.len() implies (#[trigger] cards[c]).suit
                    == cards[0].suit by {
                    assert(window[c] == places[start + c]);
                    assert(window[0] == places[start]);
                    assert(cards[c].suit.index() == cards[0].suit.index());
                }
            }
            lemma_flat_all(0, places.len() - len + 1, f, p);
        }
        lemma_flat_all(3, top, bot::windows_of(hand, places), p);
    }
    lemma_flat_all(0, 4, bot::straights_in(hand), p);
}

/// Full houses and fours of a kind stand in the part of the list that holds the
/// combinations of any five cards.
proof fn lemma_grouped_among_fives(hand: Seq<Card>, at: int)
    requires
        in_order(hand),
        0 <= at < combos_in(hand).len(),
        is_grouped(combos_in(hand)[at].combo),
    ensures
        ({
            let n = hand.len() as int;
            let fives = flat(0, n, bot::five_i(hand));
            let before = flat(0, n, bot::single_at(hand)).len() + flat(
                0,
                n,
                bot::pairs_from(hand),
            ).len() + flat(0, 4, bot::straights_in(hand)).len();
            &&& 0 <= at - before < fives.len()
            &&& fives[at - before] == combos_in(hand)[at]
        }),
{
    let n = hand.len() as int;
    lemma_hand_size(hand);
    let x = combos_in(hand)[at];
    bot::law_combos_are_in_hand(hand);
    assert(x.is_in(hand));
    lemma_grouped_shape(hand, x);
    lemma_picked_in_order(hand, x);
    let p = no_group(hand);
    assert(!p(x)) by {
        let cards = cards_at(hand, x.indices);
        if combo::same_suit(cards) {
            assert(cards[0].suit == cards[1].suit && cards[2].suit == cards[0].suit
                && cards[3].suit == cards[0].suit && cards[4].suit == cards[0].suit);
            assert(cards[0].key() < cards[1].key() < cards[2].key());
            assert(rank_at(cards, 0) == rank_at(cards, 1) || rank_at(cards, 1) == rank_at(
                cards,
                2,
            ));
        }
    }
    let a = flat(0, n, bot::single_at(hand));
    let b = flat(0, n, bot::pairs_from(hand));
    let c = flat(0, 4, bot::straights_in(hand));
    let d = flat(0, n, bot::five_i(hand));
    let e = flat(0, 13, bot::bomb_of(hand));
    lemma_flat_all(0, n, bot::single_at(hand), p);
    lemma_pairs_no_group(hand);
    lemma_straights_no_group(hand);
    lemma_flat_all(0, 13, bot::bomb_of(hand), p);
    assert(combos_in(hand) == a + b + c + d + e);
    let lb = a.len() + b.len();
    let lc = lb + c.len();
    if at < a.len() {
        assert(x == a[at]);
    } else if at < lb {
        assert(x == b[at - a.len()]);
    } else if at < lc {
        assert(x == c[at - lb]);
    } else if at < lc + d.len() {
        assert(x == d[at - lc]);
    } else {
        assert(x == e[at - lc - d.len()]);
    }
}

// ---------------------------------------------------------------------------
// The lowest answer
// ---------------------------------------------------------------------------

/// Of two full houses or fours of a kind of which `g` is below `f` only by the
/// rank that decides second, the search meets `g`, or one that is as high as `g`,
/// before `f`.
proof fn lemma_lower_comes_first(hand: Seq<Card>, f: FoundModel, g: FoundModel) -> (h: FoundModel)
    requires
        in_order(hand),
        f.is_in(hand),
        g.is_in(hand),
        is_grouped(f.combo),
        g.combo.combo_type == f.combo.combo_type,
        g.combo.main_rank() == f.combo.main_rank(),
        g.combo.second_rank() < f.combo.second_rank(),
    ensures
        h.is_in(hand),
        h.combo.combo_type == g.combo.combo_type,
        h.combo.cards.len() == 5,
        h.combo.main_rank() == g.combo.main_rank(),
        h.combo.second_rank() == g.combo.second_rank(),
        comes_before(h.indices, f.indices),
{
    lemma_grouped_shape(hand, f);
    lemma_grouped_shape(hand, g);
    let main = g.combo.main_rank();
    let second = g.combo.second_rank();
    let a = f.indices;
    let b = g.indices;
    let x = f.combo.cards;
    let y = g.combo.cards;
    assert(a[0] < a[1] < a[2] < a[3] < a[4] && (a[4] as int) < hand.len());
    assert(b[0] < b[1] < b[2] < b[3] < b[4] && (b[4] as int) < hand.len());
    if second < main {
        assert(y[0].rank.index() < x[0].rank.index());
        lemma_lower_rank_first(hand, b[0] as int, a[0] as int);
        g
    } else {
        let indices = if g.combo.combo_type == ComboType::FullHouse {
            seq![a[0], a[1], a[2], b[3], b[4]]
        } else {
            seq![a[0], a[1], a[2], a[3], b[4]]
        };
        let cards = cards_at(hand, indices);
        if g.combo.combo_type == ComboType::FullHouse {
            assert(x[2].rank.index() < y[3].rank.index() < x[3].rank.index());
            lemma_lower_rank_first(hand, a[2] as int, b[3] as int);
            lemma_lower_rank_first(hand, b[3] as int, a[3] as int);
            assert(cards[0] == x[0] && cards[1] == x[1] && cards[2] == x[2] && cards[3] == y[3]
                && cards[4] == y[4]);
            lemma_full_house_from_shape(cards, main, second);
        } else {
            assert(x[3].rank.index() < y[4].rank.index() < x[4].rank.index());
            lemma_lower_rank_first(hand, a[3] as int, b[4] as int);
            lemma_lower_rank_first(hand, b[4] as int, a[4] as int);
            assert(cards[0] == x[0] && cards[1] == x[1] && cards[2] == x[2] && cards[3] == x[3]
                && cards[4] == y[4]);
            lemma_four_kind_from_shape(cards, main, second);
        }
        let h = FoundModel { indices, combo: combo::combo_of(cards).unwrap() };
        lemma_picked_in_order(hand, h);
        h
    }
}

/// In a hand in order, cards of a lower rank stand before those of a higher.
proof fn lemma_lower_rank_first(hand: Seq<Card>, i: int, j: int)
    requires
        in_order(hand),
        0 <= i < hand.len(),
        0 <= j < hand.len(),
        hand[i].rank.index() < hand[j].rank.index(),
    ensures
        i < j,
{
    if j < i {
        assert(hand[j].key() < hand[i].key());
    }
}

/// The weakest of the entries that fit, where fitting goes by kind, size and
/// ranks alone, is not above any that fits and has its kind and size.
proof fn lemma_none_below(
    hand: Seq<Card>,
    fits: spec_fn(FoundModel) -> bool,
    at: int,
    g: FoundModel,
)
    requires
        in_order(hand),
        0 <= at < combos_in(hand).len(),
        forall|k: int|
            0 <= k < combos_in(hand).len() && fits(#[trigger] combos_in(hand)[k]) ==> combos_in(
                hand,
            )[at].strength(hand) <= combos_in(hand)[k].strength(hand),
        forall|k: int|
            0 <= k < at && fits(#[trigger] combos_in(hand)[k]) ==> combos_in(hand)[at].strength(
                hand,
            ) < combos_in(hand)[k].strength(hand),
        g.is_in(hand),
        g.combo.combo_type == combos_in(hand)[at].combo.combo_type,
        g.combo.cards.len() == combos_in(hand)[at].combo.cards.len(),
        forall|h: FoundModel| #[trigger]
            h.is_in(hand) && h.combo.combo_type == g.combo.combo_type && h.combo.cards.len()
                == g.combo.cards.len() && h.combo.main_rank() == g.combo.main_rank()
                && h.combo.second_rank() == g.combo.second_rank() ==> fits(h),
    ensures
        combos_in(hand)[at].combo.above(g.combo) matches Some(d) && d <= 0,
{
    let list = combos_in(hand);
    let f = list[at];
    lemma_hand_size(hand);
    bot::law_combos_are_in_hand(hand);
    assert(f.is_in(hand));
    law_combos_complete(hand, g);
    let m = choose|m: int| 0 <= m < list.len() && list[m] == g;
    assert(fits(list[m]));
    lemma_strength_by_rank(hand, f);
    lemma_strength_by_rank(hand, g);
    assert(f.combo.main_rank() <= g.combo.main_rank());
    if f.combo.main_rank() == g.combo.main_rank() && g.combo.second_rank()
        < f.combo.second_rank() {
        let h = lemma_lower_comes_first(hand, f, g);
        lemma_entry_cards(hand, g);
        law_combos_complete(hand, h);
        let k = choose|k: int| 0 <= k < list.len() && list[k] == h;
        lemma_strength_by_rank(hand, h);
        assert(fits(list[k]));
        lemma_grouped_among_fives(hand, at);
        lemma_grouped_among_fives(hand, k);
        lemma_fives_rising(hand);
        assert(false);
    }
}

/// A bot that can answer does, and with the lowest of its hand that wins: as long
/// as anything in a hand in order may be played on the table, the bot plays
/// something of that kind that is not above it.
pub proof fn law_answer_is_lowest(hand: Seq<Card>, table: ComboModel, g: FoundModel)
    requires
        in_order(hand),
        g.is_in(hand),
        rules::verdict(cards_at(hand, g.indices), Some(table)).valid,
    ensures
        ({
            &&& bot::beat_choice(hand, table) matches Some(places)
            &&& rules::verdict(cards_at(hand, places), Some(table)).valid
            &&& combo::combo_of(cards_at(hand, places)) matches Some(answer)
            &&& answer.above(g.combo) matches Some(d)
            &&& d <= 0
        }),
{
    let list = combos_in(hand);
    let fits = bot::beats(hand, table);
    lemma_hand_size(hand);
    bot::law_combos_are_in_hand(hand);
    law_combos_complete(hand, g);
    let m = choose|m: int| 0 <= m < list.len() && list[m] == g;
    list.lemma_filter_contains(fits, m);
    bot::law_weakest(hand, list.filter(fits));
    let at = lemma_weakest_fitting(hand, list, fits);
    assert(list[at].is_in(hand));
    assert(fits(g));
    lemma_entry_cards(hand, list[at]);
    lemma_entry_cards(hand, g);
    assert forall|h: FoundModel| #[trigger]
        h.is_in(hand) && h.combo.combo_type == g.combo.combo_type && h.combo.cards.len()
            == g.combo.cards.len() && h.combo.main_rank() == g.combo.main_rank()
            && h.combo.second_rank() == g.combo.second_rank() implies fits(h) by {
        lemma_entry_cards(hand, h);
    }
    lemma_none_below(hand, fits, at, g);
}

/// A bot that may lead does, as long as it holds a card, and with the weakest of
/// its hand: nothing in a hand in order is weaker, and nothing of the same kind
/// and size is below it.
pub proof fn law_lead_is_weakest(hand: Seq<Card>, g: FoundModel)
    requires
        in_order(hand),
        g.is_in(hand),
    ensures
        ({
            &&& bot::weakest(hand, combos_in(hand)) matches Some(lead)
            &&& bot::free_choice(hand) == Some(lead.indices)
            &&& lead.is_in(hand)
            &&& lead.strength(hand) <= g.strength(hand)
            &&& lead.combo.combo_type == g.combo.combo_type && lead.combo.cards.len()
                == g.combo.cards.len() ==> (lead.combo.above(g.combo) matches Some(d) && d <= 0)
        }),
{
    lemma_hand_size(hand);
    law_combos_complete(hand, g);
    let m = choose|m: int| 0 <= m < combos_in(hand).len() && combos_in(hand)[m] == g;
    let at = lemma_weakest_at(hand, combos_in(hand));
    let lead = combos_in(hand)[at];
    assert(lead.is_in(hand)) by {
        bot::law_combos_are_in_hand(hand);
    }
    assert(lead.strength(hand) <= combos_in(hand)[m].strength(hand));
    if lead.combo.combo_type == g.combo.combo_type && lead.combo.cards.len()
        == g.combo.cards.len() {
        lemma_none_below(hand, |x: FoundModel| true, at, g);
    }
}

/// The weakest entry: none is weaker, and those before it are stronger.
pub proof fn lemma_weakest_at(hand: Seq<Card>, list: Seq<FoundModel>) -> (at: int)
    requires
        list.len() > 0,
    ensures
        0 <= at < list.len(),
        bot::weakest(hand, list) == Some(list[at]),
        forall|k: int|
            0 <= k < list.len() ==> list[at].strength(hand) <= (#[trigger] list[k]).strength(hand),
        forall|k: int|
            0 <= k < at ==> list[at].strength(hand) < (#[trigger] list[k]).strength(hand),
{
    let all = |x: FoundModel| true;
    lemma_filter_all(list, all);
    bot::law_weakest(hand, list);
    let at = lemma_weakest_fitting(hand, list, all);
    assert forall|k: int| 0 <= k < list.len() implies all(#[trigger] list[k]) by {}
    at
}

/// Where everything fits, nothing is left out.
proof fn lemma_filter_all(list: Seq<FoundModel>, fits: spec_fn(FoundModel) -> bool)
    requires
        forall|x: FoundModel| #[trigger] fits(x),
    ensures
        list.filter(fits) == list,
    decreases list.len(),
{
    reveal(Seq::filter);
    if list.len() > 0 {
        lemma_filter_all(list.drop_last(), fits);
        assert(list =~= list.drop_last().push(list.last()));
    } else {
        assert(list.filter(fits) =~= list);
    }
}

/// An entry's cards are as many as its places.
pub proof fn lemma_entry_cards(hand: Seq<Card>, f: FoundModel)
    requires
        f.is_in(hand),
    ensures
        f.combo.cards.len() == f.indices.len() == cards_at(hand, f.indices).len(),
        f.combo.combo_type == ComboType::Bomb ==> f.combo.cards.len() == 4,
{
    card::lemma_sorted_cards(cards_at(hand, f.indices));
}

} // verus!
