//! The bots: which combinations a hand holds and which of them a bot plays.
use crate::game::card::Card;
use crate::game::combo;
use crate::game::combo::Combo;
use crate::game::combo::ComboModel;
use crate::game::combo::ComboType;
use crate::game::rules;
use crate::game::state::GameModel;
use crate::game::state::GamePhase;
use crate::game::state::GameState;
use vstd::prelude::*;

verus! {

/// A combination in a hand: where its cards are and what they make.
#[derive(Debug)]
pub struct ValidCombo {
    pub indices: Vec<usize>,
    pub combo: Combo,
}

#[verifier::ext_equal]
pub struct FoundModel {
    pub indices: Seq<usize>,
    pub combo: ComboModel,
}

impl View for ValidCombo {
    type V = FoundModel;

    open spec fn view(&self) -> FoundModel {
        FoundModel { indices: self.indices@, combo: self.combo@ }
    }
}

/// What a list of found combinations holds.
pub open spec fn found_models(v: Seq<ValidCombo>) -> Seq<FoundModel> {
    v.map_values(|c: ValidCombo| c@)
}

/// The cards at these places of a hand.
pub open spec fn cards_at(hand: Seq<Card>, indices: Seq<usize>) -> Seq<Card> {
    indices.map_values(|i: usize| hand[i as int])
}

/// The lists `f(lo)`, `f(lo + 1)` and so on up to `f(hi - 1)`, one after the
/// other.
pub open spec fn flat(lo: int, hi: int, f: spec_fn(int) -> Seq<FoundModel>) -> Seq<FoundModel>
    decreases hi - lo,
{
    if lo >= hi {
        Seq::empty()
    } else {
        flat(lo, hi - 1, f) + f(hi - 1)
    }
}

/// The combination at these places of a hand: one entry if there is one.
pub open spec fn found(hand: Seq<Card>, indices: Seq<usize>) -> Seq<FoundModel> {
    match combo::combo_of(cards_at(hand, indices)) {
        Some(combo) => seq![FoundModel { indices, combo }],
        None => Seq::empty(),
    }
}

pub open spec fn single_at(hand: Seq<Card>) -> spec_fn(int) -> Seq<FoundModel> {
    |i: int| found(hand, seq![i as usize])
}

/// The triple at `i`, `j` and `k`, where the three cards have one rank.
pub open spec fn triple_at(hand: Seq<Card>, i: int, j: int) -> spec_fn(int) -> Seq<FoundModel> {
    |k: int|
        if hand[k].rank == hand[i].rank {
            found(hand, seq![i as usize, j as usize, k as usize])
        } else {
            Seq::empty()
        }
}

/// The pair at `i` and `j` and the triples that begin with it, where the two
/// cards have one rank.
pub open spec fn pair_at(hand: Seq<Card>, i: int) -> spec_fn(int) -> Seq<FoundModel> {
    |j: int|
        if hand[i].rank == hand[j].rank {
            found(hand, seq![i as usize, j as usize]) + flat(
                j + 1,
                hand.len() as int,
                triple_at(hand, i, j),
            )
        } else {
            Seq::empty()
        }
}

pub open spec fn pairs_from(hand: Seq<Card>) -> spec_fn(int) -> Seq<FoundModel> {
    |i: int| flat(i + 1, hand.len() as int, pair_at(hand, i))
}

/// The places of a suit's cards among the first `n` of a hand.
pub open spec fn suit_places(hand: Seq<Card>, suit: int, n: int) -> Seq<usize>
    decreases n,
{
    if n <= 0 {
        Seq::empty()
    } else if hand[n - 1].suit.index() == suit {
        suit_places(hand, suit, n - 1).push((n - 1) as usize)
    } else {
        suit_places(hand, suit, n - 1)
    }
}

/// The places of a rank's cards among the first `n` of a hand.
pub open spec fn rank_places(hand: Seq<Card>, rank: int, n: int) -> Seq<usize>
    decreases n,
{
    if n <= 0 {
        Seq::empty()
    } else if hand[n - 1].rank.index() == rank {
        rank_places(hand, rank, n - 1).push((n - 1) as usize)
    } else {
        rank_places(hand, rank, n - 1)
    }
}

/// The combination of `len` neighbours among the given places.
pub open spec fn window_at(hand: Seq<Card>, places: Seq<usize>, len: int) -> spec_fn(int) -> Seq<
    FoundModel,
> {
    |start: int| found(hand, places.subrange(start, start + len))
}

pub open spec fn windows_of(hand: Seq<Card>, places: Seq<usize>) -> spec_fn(int) -> Seq<
    FoundModel,
> {
    |len: int| flat(0, places.len() - len + 1, window_at(hand, places, len))
}

/// The longest window over a number of places: five, or all of them.
pub open spec fn longest_window(n: int) -> int {
    if n < 5 {
        n
    } else {
        5
    }
}

pub open spec fn straights_in(hand: Seq<Card>) -> spec_fn(int) -> Seq<FoundModel> {
    |suit: int|
        {
            let places = suit_places(hand, suit, hand.len() as int);
            flat(3, longest_window(places.len() as int) + 1, windows_of(hand, places))
        }
}

pub open spec fn five_m(hand: Seq<Card>, i: int, j: int, k: int, l: int) -> spec_fn(int) -> Seq<
    FoundModel,
> {
    |m: int| found(hand, seq![i as usize, j as usize, k as usize, l as usize, m as usize])
}

pub open spec fn five_l(hand: Seq<Card>, i: int, j: int, k: int) -> spec_fn(int) -> Seq<
    FoundModel,
> {
    |l: int| flat(l + 1, hand.len() as int, five_m(hand, i, j, k, l))
}

pub open spec fn five_k(hand: Seq<Card>, i: int, j: int) -> spec_fn(int) -> Seq<FoundModel> {
    |k: int| flat(k + 1, hand.len() as int, five_l(hand, i, j, k))
}

pub open spec fn five_j(hand: Seq<Card>, i: int) -> spec_fn(int) -> Seq<FoundModel> {
    |j: int| flat(j + 1, hand.len() as int, five_k(hand, i, j))
}

pub open spec fn five_i(hand: Seq<Card>) -> spec_fn(int) -> Seq<FoundModel> {
    |i: int| flat(i + 1, hand.len() as int, five_j(hand, i))
}

pub open spec fn bomb_of(hand: Seq<Card>) -> spec_fn(int) -> Seq<FoundModel> {
    |rank: int|
        {
            let places = rank_places(hand, rank, hand.len() as int);
            if places.len() == 4 {
                found(hand, places)
            } else {
                Seq::empty()
            }
        }
}

/// Every combination in a hand: the singles; the pairs, each with the triples
/// that begin with it; the combinations of three to five neighbours within a
/// suit; those of any five cards; and the bombs of the ranks that the hand
/// holds four of.
pub open spec fn combos_in(hand: Seq<Card>) -> Seq<FoundModel> {
    let n = hand.len() as int;
    flat(0, n, single_at(hand)) + flat(0, n, pairs_from(hand)) + flat(0, 4, straights_in(hand))
        + flat(0, n, five_i(hand)) + flat(0, 13, bomb_of(hand))
}

impl FoundModel {
    /// The strength of the combination as a number. A lower number means a
    /// weaker combination, which is better played first.
    pub open spec fn strength(self, hand: Seq<Card>) -> int {
        let first = hand[self.indices[0] as int].rank.index();
        match self.combo.combo_type {
            ComboType::Single => first * 10 + 900,
            ComboType::Pair => first * 10 + 2,
            ComboType::Triple => first * 10 + 3,
            ComboType::Straight => self.combo.cards.last().rank.index() * 10
                + self.combo.cards.len(),
            ComboType::FullHouse => combo::group_rank(self.combo.cards, 3) * 10 + 50,
            ComboType::FourKind => combo::group_rank(self.combo.cards, 4) * 10 + 100,
            ComboType::Bomb => 9000 + self.combo.cards[0].rank.index() * 10,
        }
    }

    /// Is there what the strength is read from? A card of the hand where the
    /// combination has one rank, else the combination's own cards, and not more
    /// of them than can be counted.
    pub open spec fn has_strength(self, hand: Seq<Card>) -> bool {
        match self.combo.combo_type {
            ComboType::Single | ComboType::Pair | ComboType::Triple => self.indices.len() > 0 && (
            self.indices[0] as int) < hand.len(),
            ComboType::Straight => self.combo.cards.len() > 0 && self.combo.cards.last().rank.index()
                * 10 + self.combo.cards.len() <= i32::MAX,
            _ => self.combo.cards.len() > 0,
        }
    }

    /// The combination is really there: its places are in the hand, each once
    /// and in order, and their cards make it.
    pub open spec fn is_in(self, hand: Seq<Card>) -> bool {
        &&& self.indices.len() > 0
        &&& forall|k: int|
            0 <= k < self.indices.len() ==> (#[trigger] self.indices[k] as int) < hand.len()
        &&& forall|a: int, b: int|
            0 <= a < b < self.indices.len() ==> self.indices[a] < self.indices[b]
        &&& combo::combo_of(cards_at(hand, self.indices)) == Some(self.combo)
    }
}

/// The weakest of the combinations, the first of them where several are equally
/// weak.
pub open spec fn weakest(hand: Seq<Card>, list: Seq<FoundModel>) -> Option<FoundModel>
    decreases list.len(),
{
    if list.len() == 0 {
        None
    } else {
        match weakest(hand, list.drop_last()) {
            None => Some(list.last()),
            Some(best) => if list.last().strength(hand) < best.strength(hand) {
                Some(list.last())
            } else {
                Some(best)
            },
        }
    }
}

/// May the combination be played on this one?
pub open spec fn beats(hand: Seq<Card>, table: ComboModel) -> spec_fn(FoundModel) -> bool {
    |f: FoundModel| rules::verdict(cards_at(hand, f.indices), Some(table)).valid
}

/// The places of the cards that a bot leads with.
pub open spec fn free_choice(hand: Seq<Card>) -> Option<Seq<usize>> {
    match weakest(hand, combos_in(hand)) {
        Some(f) => Some(f.indices),
        None => None,
    }
}

/// The places of the cards with which a bot answers a combination.
pub open spec fn beat_choice(hand: Seq<Card>, table: ComboModel) -> Option<Seq<usize>> {
    match weakest(hand, combos_in(hand).filter(beats(hand, table))) {
        Some(f) => Some(f.indices),
        None => None,
    }
}

/// What a bot does at its turn: the places of the cards it plays, or nothing
/// where it passes. While threes are discarded it plays all its threes; a free
/// table it leads; otherwise it answers what lies there if it can.
pub open spec fn bot_choice(game: GameModel, bot_id: usize) -> Option<Seq<usize>> {
    let hand = game.players[bot_id as int].hand;
    if game.phase == GamePhase::ThreeDiscard {
        let places = rank_places(hand, 0, hand.len() as int);
        if places.len() > 0 {
            Some(places)
        } else {
            None
        }
    } else if game.trick.combo_player is None {
        free_choice(hand)
    } else if game.trick.combo_type is Some {
        match combo::combo_of(game.trick.cards) {
            Some(table) => beat_choice(hand, table),
            None => None,
        }
    } else {
        None
    }
}

// ---------------------------------------------------------------------------
// What the list of combinations is good for
// ---------------------------------------------------------------------------

/// Every entry is really in the hand.
pub open spec fn all_in(hand: Seq<Card>, list: Seq<FoundModel>) -> bool {
    forall|k: int| 0 <= k < list.len() ==> (#[trigger] list[k]).is_in(hand)
}

proof fn lemma_flat_all_in(
    hand: Seq<Card>,
    lo: int,
    hi: int,
    f: spec_fn(int) -> Seq<FoundModel>,
)
    requires
        forall|i: int| lo <= i < hi ==> all_in(hand, #[trigger] f(i)),
    ensures
        all_in(hand, flat(lo, hi, f)),
    decreases hi - lo,
{
    if lo < hi {
        lemma_flat_all_in(hand, lo, hi - 1, f);
        let a = flat(lo, hi - 1, f);
        let b = f(hi - 1);
        assert forall|k: int| 0 <= k < (a + b).len() implies (#[trigger] (a + b)[k]).is_in(hand) by {
            if k < a.len() {
                assert((a + b)[k] == a[k]);
            } else {
                assert((a + b)[k] == b[k - a.len()]);
            }
        }
    }
}

proof fn lemma_found_in(hand: Seq<Card>, indices: Seq<usize>)
    requires
        forall|k: int| 0 <= k < indices.len() ==> (#[trigger] indices[k] as int) < hand.len(),
        forall|a: int, b: int| 0 <= a < b < indices.len() ==> indices[a] < indices[b],
    ensures
        all_in(hand, found(hand, indices)),
{
    assert(cards_at(hand, indices).len() == indices.len());
}

proof fn lemma_suit_places(hand: Seq<Card>, suit: int, n: int)
    requires
        n <= hand.len() <= usize::MAX,
    ensures
        forall|k: int|
            0 <= k < suit_places(hand, suit, n).len() ==> (#[trigger] suit_places(
                hand,
                suit,
                n,
            )[k] as int) < n,
        forall|a: int, b: int|
            0 <= a < b < suit_places(hand, suit, n).len() ==> suit_places(hand, suit, n)[a]
                < suit_places(hand, suit, n)[b],
    decreases n,
{
    if n > 0 {
        lemma_suit_places(hand, suit, n - 1);
        let prev = suit_places(hand, suit, n - 1);
        let all = suit_places(hand, suit, n);
        assert forall|k: int| 0 <= k < all.len() implies (#[trigger] all[k] as int) < n by {
            if k < prev.len() {
                assert(all[k] == prev[k]);
            }
        }
        assert forall|a: int, b: int| 0 <= a < b < all.len() implies all[a] < all[b] by {
            assert(all[a] == prev[a]);
            if b < prev.len() {
                assert(all[b] == prev[b]);
            }
        }
    }
}

proof fn lemma_rank_places(hand: Seq<Card>, rank: int, n: int)
    requires
        n <= hand.len() <= usize::MAX,
    ensures
        forall|k: int|
            0 <= k < rank_places(hand, rank, n).len() ==> (#[trigger] rank_places(
                hand,
                rank,
                n,
            )[k] as int) < n,
        forall|a: int, b: int|
            0 <= a < b < rank_places(hand, rank, n).len() ==> rank_places(hand, rank, n)[a]
                < rank_places(hand, rank, n)[b],
    decreases n,
{
    if n > 0 {
        lemma_rank_places(hand, rank, n - 1);
        let prev = rank_places(hand, rank, n - 1);
        let all = rank_places(hand, rank, n);
        assert forall|k: int| 0 <= k < all.len() implies (#[trigger] all[k] as int) < n by {
            if k < prev.len() {
                assert(all[k] == prev[k]);
            }
        }
        assert forall|a: int, b: int| 0 <= a < b < all.len() implies all[a] < all[b] by {
            assert(all[a] == prev[a]);
            if b < prev.len() {
                assert(all[b] == prev[b]);
            }
        }
    }
}

proof fn lemma_pairs_in(hand: Seq<Card>)
    requires
        hand.len() <= usize::MAX,
    ensures
        all_in(hand, flat(0, hand.len() as int, pairs_from(hand))),
{
    let n = hand.len() as int;
    assert forall|i: int| 0 <= i < n implies all_in(hand, #[trigger] (pairs_from(hand))(i)) by {
        assert forall|j: int| i + 1 <= j < n implies all_in(
            hand,
            #[trigger] (pair_at(hand, i))(j),
        ) by {
            lemma_found_in(hand, seq![i as usize, j as usize]);
            assert forall|k: int| j + 1 <= k < n implies all_in(
                hand,
                #[trigger] (triple_at(hand, i, j))(k),
            ) by {
                lemma_found_in(hand, seq![i as usize, j as usize, k as usize]);
            }
            lemma_flat_all_in(hand, j + 1, n, triple_at(hand, i, j));
            let a = found(hand, seq![i as usize, j as usize]);
            let b = flat(j + 1, n, triple_at(hand, i, j));
            assert forall|k: int| 0 <= k < (a + b).len() implies (#[trigger] (a + b)[k]).is_in(
                hand,
            ) by {
                if k < a.len() {
                    assert((a + b)[k] == a[k]);
                } else {
                    assert((a + b)[k] == b[k - a.len()]);
                }
            }
        }
        lemma_flat_all_in(hand, i + 1, n, pair_at(hand, i));
    }
    lemma_flat_all_in(hand, 0, n, pairs_from(hand));
}

proof fn lemma_straights_in(hand: Seq<Card>)
    requires
        hand.len() <= usize::MAX,
    ensures
        all_in(hand, flat(0, 4, straights_in(hand))),
{
    assert forall|suit: int| 0 <= suit < 4 implies all_in(
        hand,
        #[trigger] (straights_in(hand))(suit),
    ) by {
        let places = suit_places(hand, suit, hand.len() as int);
        lemma_suit_places(hand, suit, hand.len() as int);
        let top = longest_window(places.len() as int) + 1;
        assert forall|len: int| 3 <= len < top implies all_in(
            hand,
            #[trigger] (windows_of(hand, places))(len),
        ) by {
            assert forall|start: int| 0 <= start < places.len() - len + 1 implies all_in(
                hand,
                #[trigger] (window_at(hand, places, len))(start),
            ) by {
                lemma_found_in(hand, places.subrange(start, start + len));
            }
            lemma_flat_all_in(hand, 0, places.len() - len + 1, window_at(hand, places, len));
        }
        lemma_flat_all_in(hand, 3, top, windows_of(hand, places));
    }
    lemma_flat_all_in(hand, 0, 4, straights_in(hand));
}

proof fn lemma_fives_in(hand: Seq<Card>)
    requires
        hand.len() <= usize::MAX,
    ensures
        all_in(hand, flat(0, hand.len() as int, five_i(hand))),
{
    let n = hand.len() as int;
    assert forall|i: int| 0 <= i < n implies all_in(hand, #[trigger] (five_i(hand))(i)) by {
        assert forall|j: int| i + 1 <= j < n implies all_in(
            hand,
            #[trigger] (five_j(hand, i))(j),
        ) by {
            assert forall|k: int| j + 1 <= k < n implies all_in(
                hand,
                #[trigger] (five_k(hand, i, j))(k),
            ) by {
                assert forall|l: int| k + 1 <= l < n implies all_in(
                    hand,
                    #[trigger] (five_l(hand, i, j, k))(l),
                ) by {
                    assert forall|m: int| l + 1 <= m < n implies all_in(
                        hand,
                        #[trigger] (five_m(hand, i, j, k, l))(m),
                    ) by {
                        lemma_found_in(
                            hand,
                            seq![i as usize, j as usize, k as usize, l as usize, m as usize],
                        );
                    }
                    lemma_flat_all_in(hand, l + 1, n, five_m(hand, i, j, k, l));
                }
                lemma_flat_all_in(hand, k + 1, n, five_l(hand, i, j, k));
            }
            lemma_flat_all_in(hand, j + 1, n, five_k(hand, i, j));
        }
        lemma_flat_all_in(hand, i + 1, n, five_j(hand, i));
    }
    lemma_flat_all_in(hand, 0, n, five_i(hand));
}

/// Every combination in the list is really in the hand.
pub proof fn law_combos_are_in_hand(hand: Seq<Card>)
    requires
        hand.len() <= usize::MAX,
    ensures
        forall|k: int| 0 <= k < combos_in(hand).len() ==> (#[trigger] combos_in(hand)[k]).is_in(hand),
{
    let n = hand.len() as int;
    assert forall|i: int| 0 <= i < n implies all_in(hand, #[trigger] (single_at(hand))(i)) by {
        lemma_found_in(hand, seq![i as usize]);
    }
    lemma_flat_all_in(hand, 0, n, single_at(hand));
    lemma_pairs_in(hand);
    lemma_straights_in(hand);
    lemma_fives_in(hand);
    assert forall|rank: int| 0 <= rank < 13 implies all_in(
        hand,
        #[trigger] (bomb_of(hand))(rank),
    ) by {
        lemma_rank_places(hand, rank, n);
        lemma_found_in(hand, rank_places(hand, rank, n));
    }
    lemma_flat_all_in(hand, 0, 13, bomb_of(hand));
    let a = flat(0, n, single_at(hand));
    let b = flat(0, n, pairs_from(hand));
    let c = flat(0, 4, straights_in(hand));
    let d = flat(0, n, five_i(hand));
    let e = flat(0, 13, bomb_of(hand));
    assert(combos_in(hand) == a + b + c + d + e);
    assert forall|k: int| 0 <= k < combos_in(hand).len() implies (#[trigger] combos_in(
        hand,
    )[k]).is_in(hand) by {
        let x = combos_in(hand)[k];
        let la = a.len() as int;
        let lb = la + b.len();
        let lc = lb + c.len();
        let ld = lc + d.len();
        if k < la {
            assert(x == a[k]);
        } else if k < lb {
            assert(x == b[k - la]);
        } else if k < lc {
            assert(x == c[k - lb]);
        } else if k < ld {
            assert(x == d[k - lc]);
        } else {
            assert(x == e[k - ld]);
        }
    }
}

/// The weakest combination is one of the list, and none of the list is weaker.
pub proof fn law_weakest(hand: Seq<Card>, list: Seq<FoundModel>)
    ensures
        weakest(hand, list) is Some <==> list.len() > 0,
        weakest(hand, list) matches Some(f) ==> list.contains(f) && forall|k: int|
            0 <= k < list.len() ==> f.strength(hand) <= (#[trigger] list[k]).strength(hand),
    decreases list.len(),
{
    if list.len() > 0 {
        let rest = list.drop_last();
        law_weakest(hand, rest);
        let f = weakest(hand, list).unwrap();
        if f == list.last() {
            assert(list[list.len() - 1] == f);
        } else {
            let i = choose|i: int| 0 <= i < rest.len() && rest[i] == f;
            assert(list[i] == f);
        }
        assert forall|k: int| 0 <= k < list.len() implies f.strength(hand) <= (
        #[trigger] list[k]).strength(hand) by {
            if k < rest.len() {
                assert(rest[k] == list[k]);
            }
        }
    }
}

/// The singles of a nonempty hand are in its list.
pub proof fn lemma_first_single(hand: Seq<Card>)
    requires
        0 < hand.len() <= usize::MAX,
    ensures
        combos_in(hand).len() > 0,
        combos_in(hand)[0].combo.combo_type == ComboType::Single,
        combos_in(hand)[0].indices == seq![0usize],
{
    lemma_singles_first(hand, hand.len() as int);
}

proof fn lemma_singles_first(hand: Seq<Card>, n: int)
    requires
        0 < n <= hand.len() <= usize::MAX,
    ensures
        flat(0, n, single_at(hand)).len() > 0,
        flat(0, n, single_at(hand))[0].combo.combo_type == ComboType::Single,
        flat(0, n, single_at(hand))[0].indices == seq![0usize],
    decreases n,
{
    assert(flat(0, n, single_at(hand)) == flat(0, n - 1, single_at(hand)) + (single_at(hand))(
        n - 1,
    ));
    if n > 1 {
        lemma_singles_first(hand, n - 1);
    } else {
        assert(flat(0, 0, single_at(hand)) =~= Seq::<FoundModel>::empty());
        assert(cards_at(hand, seq![0usize]).len() == 1);
        assert((single_at(hand))(0) == found(hand, seq![0usize]));
    }
}

/// A bot that may lead never leads with a bomb.
pub proof fn law_free_choice_never_bombs(hand: Seq<Card>)
    requires
        hand.len() <= usize::MAX,
    ensures
        weakest(hand, combos_in(hand)) matches Some(f) ==> f.combo.combo_type != ComboType::Bomb,
{
    law_combos_are_in_hand(hand);
    law_weakest(hand, combos_in(hand));
    if let Some(f) = weakest(hand, combos_in(hand)) {
        let k = choose|k: int| 0 <= k < combos_in(hand).len() && combos_in(hand)[k] == f;
        assert(combos_in(hand)[k].is_in(hand));
        assert((f.indices[0] as int) < hand.len());
        lemma_first_single(hand);
        assert(f.strength(hand) <= combos_in(hand)[0].strength(hand));
    }
}

/// What lies on the table for whoever has to answer it.
pub open spec fn table_of(game: GameModel) -> Option<ComboModel> {
    if game.trick.combo_player is Some {
        combo::combo_of(game.trick.cards)
    } else {
        None
    }
}

/// Whatever a bot decides to play while the game is on is in its hand, each
/// card once and in order, and is a valid play.
pub proof fn law_bot_plays_by_the_rules(game: GameModel, bot_id: usize)
    requires
        (bot_id as int) < game.players.len(),
        game.phase != GamePhase::ThreeDiscard,
        game.players[bot_id as int].hand.len() <= usize::MAX,
    ensures
        bot_choice(game, bot_id) matches Some(idx) ==> {
            &&& idx.len() > 0
            &&& forall|k: int|
                0 <= k < idx.len() ==> (#[trigger] idx[k] as int)
                    < game.players[bot_id as int].hand.len()
            &&& forall|a: int, b: int| 0 <= a < b < idx.len() ==> idx[a] < idx[b]
            &&& rules::verdict(
                cards_at(game.players[bot_id as int].hand, idx),
                table_of(game),
            ).valid
        },
{
    let hand = game.players[bot_id as int].hand;
    let list = combos_in(hand);
    law_combos_are_in_hand(hand);
    if game.trick.combo_player is None {
        law_weakest(hand, list);
        law_free_choice_never_bombs(hand);
        if let Some(f) = weakest(hand, list) {
            let k = choose|k: int| 0 <= k < list.len() && list[k] == f;
            assert(list[k].is_in(hand));
            assert(cards_at(hand, f.indices).len() == f.indices.len());
        }
    } else if game.trick.combo_type is Some {
        if let Some(table) = combo::combo_of(game.trick.cards) {
            let fits = list.filter(beats(hand, table));
            law_weakest(hand, fits);
            if let Some(f) = weakest(hand, fits) {
                let k = choose|k: int| 0 <= k < fits.len() && fits[k] == f;
                list.lemma_filter_pred(beats(hand, table), k);
                assert(fits.contains(f));
                list.lemma_filter_contains_rev(beats(hand, table), f);
                assert(list.contains(f));
                let i = choose|i: int| 0 <= i < list.len() && list[i] == f;
                assert(list[i].is_in(hand));
            }
        }
    }
}

// ---------------------------------------------------------------------------
// Deciding
// ---------------------------------------------------------------------------

/// The cards at these places of a hand.
pub fn pick_cards(hand: &[Card], indices: &Vec<usize>) -> (r: Vec<Card>)
    requires
        forall|k: int| 0 <= k < indices@.len() ==> (#[trigger] indices@[k] as int) < hand@.len(),
    ensures
        r@ == cards_at(hand@, indices@),
{
    let mut out: Vec<Card> = Vec::new();
    let mut i: usize = 0;
    while i < indices.len()
        invariant
            i <= indices.len(),
            out.len() == i,
            forall|k: int|
                0 <= k < indices@.len() ==> (#[trigger] indices@[k] as int) < hand@.len(),
            forall|k: int| 0 <= k < i ==> #[trigger] out@[k] == hand@[indices@[k] as int],
        decreases indices.len() - i,
    {
        assert((indices@[i as int] as int) < hand@.len());
        out.push(hand[indices[i]]);
        i += 1;
    }
    assert(out@ =~= cards_at(hand@, indices@));
    out
}

/// Adds the combination at these places of the hand, if there is one.
fn add_found(out: &mut Vec<ValidCombo>, hand: &[Card], indices: Vec<usize>)
    requires
        forall|k: int| 0 <= k < indices@.len() ==> (#[trigger] indices@[k] as int) < hand@.len(),
    ensures
        found_models(final(out)@) == found_models(old(out)@) + found(hand@, indices@),
{
    let cards = pick_cards(hand, &indices);
    let ghost before = out@;
    match combo::detect_combo(cards.as_slice()) {
        Some(combo) => {
            let entry = ValidCombo { indices, combo };
            out.push(entry);
            assert(found_models(out@) =~= found_models(before).push(entry@));
            assert(found_models(out@) =~= found_models(before) + found(hand@, indices@));
        },
        None => {
            assert(found_models(out@) =~= found_models(before) + found(hand@, indices@));
        },
    }
}

/// Adds the singles of the hand.
fn add_singles(out: &mut Vec<ValidCombo>, hand: &[Card])
    ensures
        found_models(final(out)@) == found_models(old(out)@) + flat(
            0,
            hand@.len() as int,
            single_at(hand@),
        ),
{
    let ghost base = found_models(out@);
    let ghost f = single_at(hand@);
    let mut i: usize = 0;
    assert(found_models(out@) =~= base + flat(0, 0, f));
    while i < hand.len()
        invariant
            i <= hand@.len(),
            f == single_at(hand@),
            found_models(out@) == base + flat(0, i as int, f),
        decreases hand@.len() - i,
    {
        let mut indices: Vec<usize> = Vec::new();
        indices.push(i);
        assert(indices@ =~= seq![i]);
        add_found(out, hand, indices);
        assert(found_models(out@) =~= base + flat(0, i + 1, f));
        i += 1;
    }
}

/// Adds the triples of the hand that begin with the pair at `i` and `j`.
fn add_triples(out: &mut Vec<ValidCombo>, hand: &[Card], i: usize, j: usize)
    requires
        i < j < hand@.len(),
    ensures
        found_models(final(out)@) == found_models(old(out)@) + flat(
            j + 1,
            hand@.len() as int,
            triple_at(hand@, i as int, j as int),
        ),
{
    let ghost base = found_models(out@);
    let ghost f = triple_at(hand@, i as int, j as int);
    assert(hand.len() == hand@.len());
    let mut k: usize = j + 1;
    assert(found_models(out@) =~= base + flat(j + 1, k as int, f));
    while k < hand.len()
        invariant
            i < j < k <= hand@.len(),
            f == triple_at(hand@, i as int, j as int),
            found_models(out@) == base + flat(j + 1, k as int, f),
        decreases hand@.len() - k,
    {
        if hand[k].rank == hand[i].rank {
            let mut indices: Vec<usize> = Vec::new();
            indices.push(i);
            indices.push(j);
            indices.push(k);
            assert(indices@ =~= seq![i, j, k]);
            add_found(out, hand, indices);
        }
        assert(found_models(out@) =~= base + flat(j + 1, k + 1, f));
        k += 1;
    }
}

/// Adds the pairs of the hand that begin with the card at `i`, each with its
/// triples.
fn add_pairs_at(out: &mut Vec<ValidCombo>, hand: &[Card], i: usize)
    requires
        i < hand@.len(),
    ensures
        found_models(final(out)@) == found_models(old(out)@) + flat(
            i + 1,
            hand@.len() as int,
            pair_at(hand@, i as int),
        ),
{
    let ghost base = found_models(out@);
    let ghost f = pair_at(hand@, i as int);
    assert(hand.len() == hand@.len());
    let mut j: usize = i + 1;
    assert(found_models(out@) =~= base + flat(i + 1, j as int, f));
    while j < hand.len()
        invariant
            i < j <= hand@.len(),
            f == pair_at(hand@, i as int),
            found_models(out@) == base + flat(i + 1, j as int, f),
        decreases hand@.len() - j,
    {
        if hand[i].rank == hand[j].rank {
            let mut indices: Vec<usize> = Vec::new();
            indices.push(i);
            indices.push(j);
            assert(indices@ =~= seq![i, j]);
            add_found(out, hand, indices);
            add_triples(out, hand, i, j);
        }
        assert(found_models(out@) =~= base + flat(i + 1, j + 1, f));
        j += 1;
    }
}

/// Adds the pairs and triples of the hand.
fn add_pairs(out: &mut Vec<ValidCombo>, hand: &[Card])
    ensures
        found_models(final(out)@) == found_models(old(out)@) + flat(
            0,
            hand@.len() as int,
            pairs_from(hand@),
        ),
{
    let ghost base = found_models(out@);
    let ghost f = pairs_from(hand@);
    let mut i: usize = 0;
    assert(found_models(out@) =~= base + flat(0, 0, f));
    while i < hand.len()
        invariant
            i <= hand@.len(),
            f == pairs_from(hand@),
            found_models(out@) == base + flat(0, i as int, f),
        decreases hand@.len() - i,
    {
        add_pairs_at(out, hand, i);
        assert(found_models(out@) =~= base + flat(0, i + 1, f));
        i += 1;
    }
}

/// The places of a suit's cards in the hand.
fn find_suit_places(hand: &[Card], suit: usize) -> (r: Vec<usize>)
    ensures
        r@ == suit_places(hand@, suit as int, hand@.len() as int),
        r.len() <= hand@.len(),
        forall|k: int| 0 <= k < r@.len() ==> (#[trigger] r@[k] as int) < hand@.len(),
{
    let mut out: Vec<usize> = Vec::new();
    let mut i: usize = 0;
    while i < hand.len()
        invariant
            i <= hand@.len(),
            out.len() <= i,
            out@ == suit_places(hand@, suit as int, i as int),
            forall|k: int| 0 <= k < out@.len() ==> (#[trigger] out@[k] as int) < i,
        decreases hand@.len() - i,
    {
        if hand[i].suit_index() == suit {
            out.push(i);
        }
        i += 1;
    }
    out
}

/// The places of a rank's cards in the hand.
fn find_rank_places(hand: &[Card], rank: usize) -> (r: Vec<usize>)
    ensures
        r@ == rank_places(hand@, rank as int, hand@.len() as int),
        r.len() <= hand@.len(),
        forall|k: int| 0 <= k < r@.len() ==> (#[trigger] r@[k] as int) < hand@.len(),
{
    let mut out: Vec<usize> = Vec::new();
    let mut i: usize = 0;
    while i < hand.len()
        invariant
            i <= hand@.len(),
            out.len() <= i,
            out@ == rank_places(hand@, rank as int, i as int),
            forall|k: int| 0 <= k < out@.len() ==> (#[trigger] out@[k] as int) < i,
        decreases hand@.len() - i,
    {
        if hand[i].rank_index() == rank {
            out.push(i);
        }
        i += 1;
    }
    out
}

/// Adds the combinations of `len` neighbours among the places.
fn add_windows(out: &mut Vec<ValidCombo>, hand: &[Card], places: &Vec<usize>, len: usize)
    requires
        0 < len <= places.len(),
        forall|k: int| 0 <= k < places@.len() ==> (#[trigger] places@[k] as int) < hand@.len(),
    ensures
        found_models(final(out)@) == found_models(old(out)@) + flat(
            0,
            places@.len() - len + 1,
            window_at(hand@, places@, len as int),
        ),
{
    let ghost base = found_models(out@);
    let ghost f = window_at(hand@, places@, len as int);
    let mut start: usize = 0;
    assert(found_models(out@) =~= base + flat(0, 0, f));
    while start < places.len() - len + 1
        invariant
            0 < len <= places.len(),
            start <= places.len() - len + 1,
            f == window_at(hand@, places@, len as int),
            forall|k: int| 0 <= k < places@.len() ==> (#[trigger] places@[k] as int) < hand@.len(),
            found_models(out@) == base + flat(0, start as int, f),
        decreases places.len() - len + 1 - start,
    {
        let mut indices: Vec<usize> = Vec::new();
        let mut k: usize = 0;
        while k < len
            invariant
                k <= len,
                start + len <= places.len(),
                indices@ == places@.subrange(start as int, start + k),
            decreases len - k,
        {
            indices.push(places[start + k]);
            assert(indices@ =~= places@.subrange(start as int, start + k + 1));
            k += 1;
        }
        assert forall|q: int| 0 <= q < indices@.len() implies (#[trigger] indices@[q] as int)
            < hand@.len() by {
            assert(indices@[q] == places@[start + q]);
        }
        add_found(out, hand, indices);
        assert(found_models(out@) =~= base + flat(0, start + 1, f));
        start += 1;
    }
}

/// Adds the combinations of three to five neighbours within one suit.
fn add_straights_of(out: &mut Vec<ValidCombo>, hand: &[Card], suit: usize)
    ensures
        found_models(final(out)@) == found_models(old(out)@) + (straights_in(hand@))(suit as int),
{
    let places = find_suit_places(hand, suit);
    let ghost base = found_models(out@);
    let ghost f = windows_of(hand@, places@);
    let top: usize = if places.len() < 5 {
        places.len() + 1
    } else {
        6
    };
    let mut len: usize = 3;
    assert(found_models(out@) =~= base + flat(3, 3, f));
    while len < top
        invariant
            3 <= len,
            len <= top || top < 3,
            len == 3 || len <= top,
            top == longest_window(places@.len() as int) + 1,
            f == windows_of(hand@, places@),
            forall|k: int| 0 <= k < places@.len() ==> (#[trigger] places@[k] as int) < hand@.len(),
            found_models(out@) == base + flat(3, len as int, f),
        decreases top - len,
    {
        add_windows(out, hand, &places, len);
        assert(found_models(out@) =~= base + flat(3, len + 1, f));
        len += 1;
    }
    assert(flat(3, len as int, f) =~= flat(3, top as int, f));
}

/// Adds the combinations of neighbours within a suit.
fn add_straights(out: &mut Vec<ValidCombo>, hand: &[Card])
    ensures
        found_models(final(out)@) == found_models(old(out)@) + flat(0, 4, straights_in(hand@)),
{
    let ghost base = found_models(out@);
    let ghost f = straights_in(hand@);
    let mut suit: usize = 0;
    assert(found_models(out@) =~= base + flat(0, 0, f));
    while suit < 4
        invariant
            suit <= 4,
            f == straights_in(hand@),
            found_models(out@) == base + flat(0, suit as int, f),
        decreases 4 - suit,
    {
        add_straights_of(out, hand, suit);
        assert(found_models(out@) =~= base + flat(0, suit + 1, f));
        suit += 1;
    }
}

fn add_fives_m(out: &mut Vec<ValidCombo>, hand: &[Card], i: usize, j: usize, k: usize, l: usize)
    requires
        i < j < k < l < hand@.len(),
    ensures
        found_models(final(out)@) == found_models(old(out)@) + flat(
            l + 1,
            hand@.len() as int,
            five_m(hand@, i as int, j as int, k as int, l as int),
        ),
{
    let ghost base = found_models(out@);
    let ghost f = five_m(hand@, i as int, j as int, k as int, l as int);
    assert(hand.len() == hand@.len());
    let mut m: usize = l + 1;
    assert(found_models(out@) =~= base + flat(l + 1, m as int, f));
    while m < hand.len()
        invariant
            i < j < k < l < m <= hand@.len(),
            f == five_m(hand@, i as int, j as int, k as int, l as int),
            found_models(out@) == base + flat(l + 1, m as int, f),
        decreases hand@.len() - m,
    {
        let mut indices: Vec<usize> = Vec::new();
        indices.push(i);
        indices.push(j);
        indices.push(k);
        indices.push(l);
        indices.push(m);
        assert(indices@ =~= seq![i, j, k, l, m]);
        add_found(out, hand, indices);
        assert(found_models(out@) =~= base + flat(l + 1, m + 1, f));
        m += 1;
    }
}

fn add_fives_l(out: &mut Vec<ValidCombo>, hand: &[Card], i: usize, j: usize, k: usize)
    requires
        i < j < k < hand@.len(),
    ensures
        found_models(final(out)@) == found_models(old(out)@) + flat(
            k + 1,
            hand@.len() as int,
            five_l(hand@, i as int, j as int, k as int),
        ),
{
    let ghost base = found_models(out@);
    let ghost f = five_l(hand@, i as int, j as int, k as int);
    assert(hand.len() == hand@.len());
    let mut l: usize = k + 1;
    assert(found_models(out@) =~= base + flat(k + 1, l as int, f));
    while l < hand.len()
        invariant
            i < j < k < l <= hand@.len(),
            f == five_l(hand@, i as int, j as int, k as int),
            found_models(out@) == base + flat(k + 1, l as int, f),
        decreases hand@.len() - l,
    {
        add_fives_m(out, hand, i, j, k, l);
        assert(found_models(out@) =~= base + flat(k + 1, l + 1, f));
        l += 1;
    }
}

fn add_fives_k(out: &mut Vec<ValidCombo>, hand: &[Card], i: usize, j: usize)
    requires
        i < j < hand@.len(),
    ensures
        found_models(final(out)@) == found_models(old(out)@) + flat(
            j + 1,
            hand@.len() as int,
            five_k(hand@, i as int, j as int),
        ),
{
    let ghost base = found_models(out@);
    let ghost f = five_k(hand@, i as int, j as int);
    assert(hand.len() == hand@.len());
    let mut k: usize = j + 1;
    assert(found_models(out@) =~= base + flat(j + 1, k as int, f));
    while k < hand.len()
        invariant
            i < j < k <= hand@.len(),
            f == five_k(hand@, i as int, j as int),
            found_models(out@) == base + flat(j + 1, k as int, f),
        decreases hand@.len() - k,
    {
        add_fives_l(out, hand, i, j, k);
        assert(found_models(out@) =~= base + flat(j + 1, k + 1, f));
        k += 1;
    }
}

fn add_fives_j(out: &mut Vec<ValidCombo>, hand: &[Card], i: usize)
    requires
        i < hand@.len(),
    ensures
        found_models(final(out)@) == found_models(old(out)@) + flat(
            i + 1,
            hand@.len() as int,
            five_j(hand@, i as int),
        ),
{
    let ghost base = found_models(out@);
    let ghost f = five_j(hand@, i as int);
    assert(hand.len() == hand@.len());
    let mut j: usize = i + 1;
    assert(found_models(out@) =~= base + flat(i + 1, j as int, f));
    while j < hand.len()
        invariant
            i < j <= hand@.len(),
            f == five_j(hand@, i as int),
            found_models(out@) == base + flat(i + 1, j as int, f),
        decreases hand@.len() - j,
    {
        add_fives_k(out, hand, i, j);
        assert(found_models(out@) =~= base + flat(i + 1, j + 1, f));
        j += 1;
    }
}

/// Adds the combinations of any five cards.
fn add_fives(out: &mut Vec<ValidCombo>, hand: &[Card])
    ensures
        found_models(final(out)@) == found_models(old(out)@) + flat(
            0,
            hand@.len() as int,
            five_i(hand@),
        ),
{
    let ghost base = found_models(out@);
    let ghost f = five_i(hand@);
    let mut i: usize = 0;
    assert(found_models(out@) =~= base + flat(0, 0, f));
    while i < hand.len()
        invariant
            i <= hand@.len(),
            f == five_i(hand@),
            found_models(out@) == base + flat(0, i as int, f),
        decreases hand@.len() - i,
    {
        add_fives_j(out, hand, i);
        assert(found_models(out@) =~= base + flat(0, i + 1, f));
        i += 1;
    }
}

/// Adds the bombs of the hand.
fn add_bombs(out: &mut Vec<ValidCombo>, hand: &[Card])
    ensures
        found_models(final(out)@) == found_models(old(out)@) + flat(0, 13, bomb_of(hand@)),
{
    let ghost base = found_models(out@);
    let ghost f = bomb_of(hand@);
    let mut rank: usize = 0;
    assert(found_models(out@) =~= base + flat(0, 0, f));
    while rank < 13
        invariant
            rank <= 13,
            f == bomb_of(hand@),
            found_models(out@) == base + flat(0, rank as int, f),
        decreases 13 - rank,
    {
        let places = find_rank_places(hand, rank);
        if places.len() == 4 {
            add_found(out, hand, places);
        }
        assert(found_models(out@) =~= base + flat(0, rank + 1, f));
        rank += 1;
    }
}

/// Every combination in the hand.
pub fn find_valid_combos(hand: &[Card]) -> (r: Vec<ValidCombo>)
    ensures
        found_models(r@) == combos_in(hand@),
{
    let mut out: Vec<ValidCombo> = Vec::new();
    assert(found_models(out@) =~= Seq::<FoundModel>::empty());
    add_singles(&mut out, hand);
    add_pairs(&mut out, hand);
    add_straights(&mut out, hand);
    add_fives(&mut out, hand);
    add_bombs(&mut out, hand);
    assert(found_models(out@) =~= combos_in(hand@));
    out
}

/// The strength of the combination as a number: the lower, the weaker.
pub fn combo_strength(hand: &[Card], valid_combo: &ValidCombo) -> (r: i32)
    requires
        valid_combo@.has_strength(hand@),
    ensures
        r == valid_combo@.strength(hand@),
{
    let indices = &valid_combo.indices;
    let cards = &valid_combo.combo.cards;
    match valid_combo.combo.combo_type {
        ComboType::Single => hand[indices[0]].rank_index() as i32 * 10 + 900,
        ComboType::Pair => hand[indices[0]].rank_index() as i32 * 10 + 2,
        ComboType::Triple => hand[indices[0]].rank_index() as i32 * 10 + 3,
        ComboType::Straight => {
            let high: i32 = cards[cards.len() - 1].rank_index() as i32;
            high * 10 + cards.len() as i32
        },
        ComboType::FullHouse => {
            let triple_rank: i32 = combo::find_group_rank(cards, 3) as i32;
            triple_rank * 10 + 50
        },
        ComboType::FourKind => {
            let quad_rank: i32 = combo::find_group_rank(cards, 4) as i32;
            quad_rank * 10 + 100
        },
        ComboType::Bomb => 9000 + cards[0].rank_index() as i32 * 10,
    }
}

/// What is known of an entry that is in the hand.
proof fn lemma_entry_fits(hand: Seq<Card>, f: FoundModel)
    requires
        f.is_in(hand),
    ensures
        f.has_strength(hand),
{
    let cards = cards_at(hand, f.indices);
    assert(cards.len() == f.indices.len());
    crate::game::card::lemma_sorted_cards(cards);
}

/// The weakest of the combinations that may be played on `table`, or of all
/// of them where nothing lies there.
fn choose_weakest(hand: &[Card], list: &Vec<ValidCombo>, table: Option<&Combo>) -> (r: Option<
    Vec<usize>,
>)
    requires
        all_in(hand@, found_models(list@)),
    ensures
        ({
            let fits = match table {
                Some(t) => found_models(list@).filter(beats(hand@, t@)),
                None => found_models(list@),
            };
            match r {
                Some(indices) => weakest(hand@, fits) matches Some(f) && f.indices == indices@,
                None => weakest(hand@, fits) is None,
            }
        }),
{
    let ghost all = found_models(list@);
    let ghost fits = |n: int|
        match table {
            Some(t) => all.take(n).filter(beats(hand@, t@)),
            None => all.take(n),
        };
    let mut best: Option<usize> = None;
    let mut best_strength: i32 = 0;
    let mut i: usize = 0;
    proof {
        reveal(Seq::filter);
        assert(all.take(0) =~= Seq::<FoundModel>::empty());
    }
    while i < list.len()
        invariant
            i <= list.len(),
            all == found_models(list@),
            all_in(hand@, all),
            fits == (|n: int|
                match table {
                    Some(t) => all.take(n).filter(beats(hand@, t@)),
                    None => all.take(n),
                }),
            match best {
                Some(b) => b < i && weakest(hand@, fits(i as int)) == Some(all[b as int])
                    && best_strength == all[b as int].strength(hand@),
                None => fits(i as int).len() == 0,
            },
        decreases list.len() - i,
    {
        let entry = &list[i];
        let ghost prev = fits(i as int);
        let ghost next = fits(i + 1);
        proof {
            assert(all[i as int] == entry@);
            assert(all[i as int].is_in(hand@));
            lemma_entry_fits(hand@, entry@);
            assert(all.take(i + 1).drop_last() =~= all.take(i as int));
            reveal(Seq::filter);
        }
        let counts = match table {
            Some(t) => {
                let cards = pick_cards(hand, &entry.indices);
                rules::validate_play(cards.as_slice(), Some(t)).valid
            },
            None => true,
        };
        if counts {
            assert(next.drop_last() =~= prev);
            assert(next.last() == entry@);
            let strength: i32 = combo_strength(hand, entry);
            if best.is_none() || strength < best_strength {
                best = Some(i);
                best_strength = strength;
            }
        } else {
            assert(next =~= prev);
        }
        i += 1;
    }
    assert(all.take(list.len() as int) =~= all);
    proof {
        law_weakest(hand@, fits(list.len() as int));
    }
    match best {
        Some(b) => Some(crate::game::state::copy_seats(&list[b].indices)),
        None => None,
    }
}

/// What a bot leads with: its weakest combination.
pub fn bot_free_play(hand: &[Card]) -> (r: Option<Vec<usize>>)
    ensures
        r is Some <==> free_choice(hand@) is Some,
        r matches Some(indices) ==> free_choice(hand@) == Some(indices@),
{
    assert(hand.len() == hand@.len());
    let list = find_valid_combos(hand);
    proof {
        law_combos_are_in_hand(hand@);
    }
    choose_weakest(hand, &list, None)
}

/// What a bot answers with: the weakest of its combinations that may be played
/// on the table's.
pub fn bot_beat_play(hand: &[Card], table: &Combo) -> (r: Option<Vec<usize>>)
    ensures
        r is Some <==> beat_choice(hand@, table@) is Some,
        r matches Some(indices) ==> beat_choice(hand@, table@) == Some(indices@),
{
    assert(hand.len() == hand@.len());
    let list = find_valid_combos(hand);
    proof {
        law_combos_are_in_hand(hand@);
    }
    choose_weakest(hand, &list, Some(table))
}

/// What a bot does at its turn: the places of the cards it plays, or `None`
/// where it passes.
pub fn bot_play(state: &GameState, bot_id: usize) -> (r: Option<Vec<usize>>)
    requires
        (bot_id as int) < state@.players.len(),
    ensures
        r is Some <==> bot_choice(state@, bot_id) is Some,
        r matches Some(indices) ==> bot_choice(state@, bot_id) == Some(indices@),
{
    let hand = &state.players[bot_id].hand;
    assert(hand@ == state@.players[bot_id as int].hand);
    if state.phase == GamePhase::ThreeDiscard {
        let places = find_rank_places(hand.as_slice(), 0);
        if places.len() > 0 {
            return Some(places);
        }
        return None;
    }
    if state.trick.combo_player.is_none() {
        return bot_free_play(hand.as_slice());
    }
    if state.trick.combo_type.is_none() {
        return None;
    }
    match combo::detect_combo(state.trick.cards.as_slice()) {
        Some(table) => bot_beat_play(hand.as_slice(), &table),
        None => None,
    }
}

} // verus!
