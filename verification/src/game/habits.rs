//! Which of several equally weak plays a bot makes.
use crate::game::answers;
use crate::game::bot;
use crate::game::bot::FoundModel;
use crate::game::card::Card;
use crate::game::combo;
use crate::game::combo::ComboModel;
use crate::game::combo::ComboType;
use crate::game::rulebook;
use crate::game::rules;
use vstd::prelude::*;

verus! {

/// The weakest of a list is the first of those that are equally weak.
pub proof fn law_first_of_the_weakest(hand: Seq<Card>, list: Seq<FoundModel>) -> (at: int)
    requires
        list.len() > 0,
    ensures
        0 <= at < list.len(),
        bot::weakest(hand, list) == Some(list[at]),
        forall|k: int|
            0 <= k < list.len() ==> list[at].strength(hand) <= (#[trigger] list[k]).strength(hand),
        forall|k: int|
            0 <= k < at ==> list[at].strength(hand) < (#[trigger] list[k]).strength(hand),
{
    answers::lemma_weakest_at(hand, list)
}

/// Places are not behind others: by the first that differs.
pub open spec fn not_behind(a: Seq<usize>, b: Seq<usize>) -> bool {
    ||| a[0] < b[0]
    ||| a[0] == b[0] && (a.len() < 2 || a[1] < b[1] || (a[1] == b[1] && (a.len() < 3 || b.len() < 3
        || a[2] <= b[2])))
}

/// Each entry of a list is as the predicate says.
spec fn all_such(list: Seq<FoundModel>, p: spec_fn(FoundModel) -> bool) -> bool {
    forall|k: int| 0 <= k < list.len() ==> p(#[trigger] list[k])
}

/// No entry of a list is behind a later one.
spec fn in_place(list: Seq<FoundModel>) -> bool {
    forall|a: int, b: int|
        0 <= a < b < list.len() ==> not_behind(
            (#[trigger] list[a]).indices,
            (#[trigger] list[b]).indices,
        )
}

/// No entry of a list is behind one of the other list.
spec fn all_before(list: Seq<FoundModel>, other: Seq<FoundModel>) -> bool {
    forall|a: int, b: int|
        0 <= a < list.len() && 0 <= b < other.len() ==> not_behind(
            (#[trigger] list[a]).indices,
            (#[trigger] other[b]).indices,
        )
}

proof fn lemma_flat_all_such(
    lo: int,
    hi: int,
    f: spec_fn(int) -> Seq<FoundModel>,
    p: spec_fn(FoundModel) -> bool,
)
    requires
        forall|i: int| lo <= i < hi ==> all_such(#[trigger] f(i), p),
    ensures
        all_such(bot::flat(lo, hi, f), p),
    decreases hi - lo,
{
    if lo < hi {
        lemma_flat_all_such(lo, hi - 1, f, p);
        let a = bot::flat(lo, hi - 1, f);
        let b = f(hi - 1);
        assert(all_such(b, p));
        assert forall|k: int| 0 <= k < (a + b).len() implies p(#[trigger] (a + b)[k]) by {
            if k < a.len() {
                assert((a + b)[k] == a[k]);
            } else {
                assert((a + b)[k] == b[k - a.len()]);
            }
        }
    }
}

proof fn lemma_flat_in_place(lo: int, hi: int, f: spec_fn(int) -> Seq<FoundModel>)
    requires
        forall|i: int| lo <= i < hi ==> in_place(#[trigger] f(i)),
        forall|i: int, j: int| lo <= i < j < hi ==> all_before(#[trigger] f(i), #[trigger] f(j)),
    ensures
        in_place(bot::flat(lo, hi, f)),
    decreases hi - lo,
{
    if lo < hi {
        lemma_flat_in_place(lo, hi - 1, f);
        let a = bot::flat(lo, hi - 1, f);
        let b = f(hi - 1);
        let p = |x: FoundModel|
            forall|k: int| 0 <= k < b.len() ==> not_behind(x.indices, (#[trigger] b[k]).indices);
        assert forall|i: int| lo <= i < hi - 1 implies all_such(#[trigger] f(i), p) by {
            assert(all_before(f(i), f(hi - 1)));
            assert forall|k: int| 0 <= k < f(i).len() implies p(#[trigger] f(i)[k]) by {}
        }
        lemma_flat_all_such(lo, hi - 1, f, p);
        assert(in_place(b));
        lemma_concat_in_place(a, b, p);
    }
}

proof fn lemma_concat_in_place(
    a: Seq<FoundModel>,
    b: Seq<FoundModel>,
    p: spec_fn(FoundModel) -> bool,
)
    requires
        in_place(a),
        in_place(b),
        all_such(a, p),
        forall|x: FoundModel| #[trigger]
            p(x) ==> forall|k: int|
                0 <= k < b.len() ==> not_behind(x.indices, (#[trigger] b[k]).indices),
    ensures
        in_place(a + b),
{
    let all = a + b;
    assert forall|i: int, j: int| 0 <= i < j < all.len() implies not_behind(
        (#[trigger] all[i]).indices,
        (#[trigger] all[j]).indices,
    ) by {
        if j < a.len() {
            assert(all[i] == a[i] && all[j] == a[j]);
        } else if i >= a.len() {
            assert(all[i] == b[i - a.len()] && all[j] == b[j - a.len()]);
        } else {
            assert(all[i] == a[i] && all[j] == b[j - a.len()]);
            assert(p(a[i]));
        }
    }
}

/// The entry of one card.
proof fn lemma_singles(hand: Seq<Card>)
    requires
        hand.len() <= usize::MAX,
    ensures
        ({
            let list = bot::flat(0, hand.len() as int, bot::single_at(hand));
            &&& in_place(list)
            &&& all_such(list, |x: FoundModel| x.indices.len() == 1)
        }),
{
    let f = bot::single_at(hand);
    let n = hand.len() as int;
    let one = |x: FoundModel| x.indices.len() == 1;
    assert forall|i: int| 0 <= i < n implies all_such(#[trigger] f(i), one) && in_place(f(i)) by {
        assert(f(i) == bot::found(hand, seq![i as usize]));
    }
    assert forall|i: int, j: int| 0 <= i < j < n implies all_before(
        #[trigger] f(i),
        #[trigger] f(j),
    ) by {
        assert(f(i) == bot::found(hand, seq![i as usize]));
        assert(f(j) == bot::found(hand, seq![j as usize]));
    }
    lemma_flat_all_such(0, n, f, one);
    lemma_flat_in_place(0, n, f);
}

/// The entries that begin with two cards.
proof fn lemma_begin_with_two(hand: Seq<Card>, i: int, j: int)
    requires
        0 <= i < j < hand.len() <= usize::MAX,
    ensures
        in_place((bot::pair_at(hand, i))(j)),
        all_such(
            (bot::pair_at(hand, i))(j),
            |x: FoundModel|
                2 <= x.indices.len() <= 3 && x.indices[0] == i as usize && x.indices[1]
                    == j as usize,
        ),
{
    let n = hand.len() as int;
    let f = bot::triple_at(hand, i, j);
    let p = |x: FoundModel|
        2 <= x.indices.len() <= 3 && x.indices[0] == i as usize && x.indices[1] == j as usize;
    assert forall|k: int| j + 1 <= k < n implies all_such(#[trigger] f(k), p) && in_place(f(k)) by {
        if hand[k].rank == hand[i].rank {
            assert(f(k) == bot::found(hand, seq![i as usize, j as usize, k as usize]));
        }
    }
    assert forall|k: int, l: int| j + 1 <= k < l < n implies all_before(
        #[trigger] f(k),
        #[trigger] f(l),
    ) by {
        if hand[k].rank == hand[i].rank && hand[l].rank == hand[i].rank {
            assert(f(k) == bot::found(hand, seq![i as usize, j as usize, k as usize]));
            assert(f(l) == bot::found(hand, seq![i as usize, j as usize, l as usize]));
        }
    }
    lemma_flat_all_such(j + 1, n, f, p);
    lemma_flat_in_place(j + 1, n, f);
    let pair = bot::found(hand, seq![i as usize, j as usize]);
    let triples = bot::flat(j + 1, n, f);
    let two = |x: FoundModel| x.indices == seq![i as usize, j as usize];
    assert forall|x: FoundModel| #[trigger] two(x) implies forall|k: int|
        0 <= k < triples.len() ==> not_behind(x.indices, (#[trigger] triples[k]).indices) by {
        assert forall|k: int| 0 <= k < triples.len() implies not_behind(
            x.indices,
            (#[trigger] triples[k]).indices,
        ) by {
            assert(p(triples[k]));
        }
    }
    assert(all_such(pair, two));
    assert(in_place(pair));
    lemma_concat_in_place(pair, triples, two);
    if hand[i].rank == hand[j].rank {
        assert((bot::pair_at(hand, i))(j) == pair + triples);
        assert forall|k: int| 0 <= k < (pair + triples).len() implies p(
            #[trigger] (pair + triples)[k],
        ) by {
            if k < pair.len() {
                assert((pair + triples)[k] == pair[k]);
                assert(two(pair[k]));
            } else {
                assert((pair + triples)[k] == triples[k - pair.len()]);
            }
        }
    }
}

/// The entries of two or three cards of one rank.
proof fn lemma_pairs(hand: Seq<Card>)
    requires
        hand.len() <= usize::MAX,
    ensures
        ({
            let list = bot::flat(0, hand.len() as int, bot::pairs_from(hand));
            &&& in_place(list)
            &&& all_such(list, |x: FoundModel| 2 <= x.indices.len() <= 3)
        }),
{
    let n = hand.len() as int;
    let f = bot::pairs_from(hand);
    let p = |x: FoundModel| 2 <= x.indices.len() <= 3;
    assert forall|i: int| 0 <= i < n implies in_place(#[trigger] f(i)) && all_such(
        f(i),
        |x: FoundModel| 2 <= x.indices.len() <= 3 && x.indices[0] == i as usize,
    ) by {
        let g = bot::pair_at(hand, i);
        let q = |x: FoundModel| 2 <= x.indices.len() <= 3 && x.indices[0] == i as usize;
        assert forall|j: int| i + 1 <= j < n implies in_place(#[trigger] g(j)) && all_such(
            g(j),
            q,
        ) by {
            lemma_begin_with_two(hand, i, j);
            let r = |x: FoundModel|
                2 <= x.indices.len() <= 3 && x.indices[0] == i as usize && x.indices[1]
                    == j as usize;
            assert forall|k: int| 0 <= k < g(j).len() implies q(#[trigger] g(j)[k]) by {
                assert(r(g(j)[k]));
            }
        }
        assert forall|j: int, l: int| i + 1 <= j < l < n implies all_before(
            #[trigger] g(j),
            #[trigger] g(l),
        ) by {
            lemma_begin_with_two(hand, i, j);
            lemma_begin_with_two(hand, i, l);
            let r = |x: FoundModel|
                2 <= x.indices.len() <= 3 && x.indices[0] == i as usize && x.indices[1]
                    == j as usize;
            let s = |x: FoundModel|
                2 <= x.indices.len() <= 3 && x.indices[0] == i as usize && x.indices[1]
                    == l as usize;
            assert forall|a: int, b: int|
                0 <= a < g(j).len() && 0 <= b < g(l).len() implies not_behind(
                (#[trigger] g(j)[a]).indices,
                (#[trigger] g(l)[b]).indices,
            ) by {
                assert(r(g(j)[a]) && s(g(l)[b]));
            }
        }
        lemma_flat_in_place(i + 1, n, g);
        lemma_flat_all_such(i + 1, n, g, q);
        assert(f(i) == bot::flat(i + 1, n, g));
    }
    assert forall|i: int, j: int| 0 <= i < j < n implies all_before(
        #[trigger] f(i),
        #[trigger] f(j),
    ) by {
        let q = |x: FoundModel| 2 <= x.indices.len() <= 3 && x.indices[0] == i as usize;
        let r = |x: FoundModel| 2 <= x.indices.len() <= 3 && x.indices[0] == j as usize;
        assert(all_such(f(i), q) && all_such(f(j), r));
        assert forall|a: int, b: int|
            0 <= a < f(i).len() && 0 <= b < f(j).len() implies not_behind(
            (#[trigger] f(i)[a]).indices,
            (#[trigger] f(j)[b]).indices,
        ) by {
            assert(q(f(i)[a]) && r(f(j)[b]));
        }
    }
    lemma_flat_in_place(0, n, f);
    assert forall|i: int| 0 <= i < n implies all_such(#[trigger] f(i), p) by {
        let q = |x: FoundModel| 2 <= x.indices.len() <= 3 && x.indices[0] == i as usize;
        assert(all_such(f(i), q));
        assert forall|k: int| 0 <= k < f(i).len() implies p(#[trigger] f(i)[k]) by {
            assert(q(f(i)[k]));
        }
    }
    lemma_flat_all_such(0, n, f, p);
}

/// Places of cards of one rank, one to three of them, in order.
pub open spec fn of_one_rank(hand: Seq<Card>, places: Seq<usize>) -> bool {
    &&& 1 <= places.len() <= 3
    &&& forall|k: int| 0 <= k < places.len() ==> (#[trigger] places[k] as int) < hand.len()
    &&& forall|a: int, b: int| 0 <= a < b < places.len() ==> places[a] < places[b]
    &&& forall|k: int|
        0 <= k < places.len() ==> hand[#[trigger] places[k] as int].rank
            == hand[places[0] as int].rank
}

/// The entry of these places stands where singles, pairs and triples do.
proof fn lemma_entry_of_one_rank(hand: Seq<Card>, places: Seq<usize>) -> (at: int)
    requires
        hand.len() <= usize::MAX,
        of_one_rank(hand, places),
    ensures
        combo::combo_of(bot::cards_at(hand, places)) is Some,
        ({
            let n = hand.len() as int;
            let low = bot::flat(0, n, bot::single_at(hand)) + bot::flat(
                0,
                n,
                bot::pairs_from(hand),
            );
            &&& 0 <= at < low.len()
            &&& low[at].indices == places
            &&& low[at].combo == combo::combo_of(bot::cards_at(hand, places)).unwrap()
        }),
{
    let n = hand.len() as int;
    let a = bot::flat(0, n, bot::single_at(hand));
    let b = bot::flat(0, n, bot::pairs_from(hand));
    let cards = bot::cards_at(hand, places);
    assert(rulebook::all_of(cards, hand[places[0] as int].rank));
    rulebook::law_cards_of_one_rank(cards, hand[places[0] as int].rank);
    let x = FoundModel { indices: places, combo: combo::combo_of(cards).unwrap() };
    assert(bot::found(hand, places) =~= seq![x]);
    assert(bot::found(hand, places)[0] == x);
    let i = places[0] as int;
    assert((places[0] as int) < n);
    if places.len() == 1 {
        assert(places =~= seq![i as usize]);
        assert((bot::single_at(hand))(i) == bot::found(hand, places));
        answers::lemma_flat_contains(0, n, bot::single_at(hand), i, x);
        let k = choose|k: int| 0 <= k < a.len() && a[k] == x;
        assert((a + b)[k] == x);
        k
    } else {
        let j = places[1] as int;
        assert((places[1] as int) < n);
        assert(hand[i].rank == hand[j].rank);
        let pair = bot::found(hand, seq![i as usize, j as usize]);
        let triples = bot::flat(j + 1, n, bot::triple_at(hand, i, j));
        assert((bot::pair_at(hand, i))(j) == pair + triples);
        if places.len() == 2 {
            assert(places =~= seq![i as usize, j as usize]);
            assert((pair + triples)[0] == x);
        } else {
            let k = places[2] as int;
            assert((places[2] as int) < n);
            assert(hand[k].rank == hand[i].rank);
            assert(places =~= seq![i as usize, j as usize, k as usize]);
            assert((bot::triple_at(hand, i, j))(k) == bot::found(hand, places));
            answers::lemma_flat_contains(j + 1, n, bot::triple_at(hand, i, j), k, x);
            let t = choose|t: int| 0 <= t < triples.len() && triples[t] == x;
            assert((pair + triples)[pair.len() + t] == x);
        }
        assert((bot::pair_at(hand, i))(j).contains(x));
        answers::lemma_flat_contains(i + 1, n, bot::pair_at(hand, i), j, x);
        assert((bot::pairs_from(hand))(i) == bot::flat(i + 1, n, bot::pair_at(hand, i)));
        answers::lemma_flat_contains(0, n, bot::pairs_from(hand), i, x);
        let k = choose|k: int| 0 <= k < b.len() && b[k] == x;
        assert((a + b)[a.len() + k] == x);
        a.len() + k
    }
}

/// Of two entries of as many cards, where singles, pairs and triples stand, the
/// earlier is not behind.
proof fn lemma_low_in_place(hand: Seq<Card>, at: int, other: int)
    requires
        hand.len() <= usize::MAX,
        ({
            let n = hand.len() as int;
            let low = bot::flat(0, n, bot::single_at(hand)) + bot::flat(
                0,
                n,
                bot::pairs_from(hand),
            );
            &&& 0 <= at < other < low.len()
            &&& low[at].indices.len() == low[other].indices.len()
        }),
    ensures
        ({
            let n = hand.len() as int;
            let low = bot::flat(0, n, bot::single_at(hand)) + bot::flat(
                0,
                n,
                bot::pairs_from(hand),
            );
            not_behind(low[at].indices, low[other].indices)
        }),
{
    let n = hand.len() as int;
    let a = bot::flat(0, n, bot::single_at(hand));
    let b = bot::flat(0, n, bot::pairs_from(hand));
    lemma_singles(hand);
    lemma_pairs(hand);
    let one = |x: FoundModel| x.indices.len() == 1;
    let more = |x: FoundModel| 2 <= x.indices.len() <= 3;
    if other < a.len() {
        assert((a + b)[at] == a[at] && (a + b)[other] == a[other]);
    } else if at >= a.len() {
        assert((a + b)[at] == b[at - a.len()] && (a + b)[other] == b[other - a.len()]);
    } else {
        assert((a + b)[at] == a[at] && (a + b)[other] == b[other - a.len()]);
        assert(one(a[at]) && more(b[other - a.len()]));
    }
}

/// A bot that leads with cards of one rank leads with the lowest of them: no such
/// cards of its hand, as many and of that rank, stand before them.
pub proof fn law_leads_with_the_lowest_suits(hand: Seq<Card>, lead: Seq<usize>, other: Seq<usize>)
    requires
        0 < hand.len() <= usize::MAX,
        bot::free_choice(hand) == Some(lead),
        of_one_rank(hand, lead),
        of_one_rank(hand, other),
        lead.len() == other.len(),
        hand[lead[0] as int].rank == hand[other[0] as int].rank,
    ensures
        not_behind(lead, other),
{
    let list = bot::combos_in(hand);
    let m = lemma_entry_of_one_rank(hand, other);
    lemma_low_is_first(hand, m);
    let at = answers::lemma_weakest_at(hand, list);
    lemma_same_strength(hand, list[at], list[m], lead, other);
    lemma_first_not_behind(hand, at, m);
}

/// A bot that answers with cards of one rank answers with the lowest of them.
pub proof fn law_answers_with_the_lowest_suits(
    hand: Seq<Card>,
    table: ComboModel,
    answer: Seq<usize>,
    other: Seq<usize>,
)
    requires
        0 < hand.len() <= usize::MAX,
        bot::beat_choice(hand, table) == Some(answer),
        of_one_rank(hand, answer),
        of_one_rank(hand, other),
        answer.len() == other.len(),
        hand[answer[0] as int].rank == hand[other[0] as int].rank,
    ensures
        not_behind(answer, other),
{
    let list = bot::combos_in(hand);
    let fits = bot::beats(hand, table);
    let m = lemma_entry_of_one_rank(hand, other);
    lemma_low_is_first(hand, m);
    let at = answers::lemma_weakest_fitting(hand, list, fits);
    assert(list[at].indices == answer);
    lemma_same_strength(hand, list[at], list[m], answer, other);
    assert(fits(list[at]));
    assert(fits(list[m])) by {
        let rank = hand[answer[0] as int].rank;
        let one = bot::cards_at(hand, answer);
        let two = bot::cards_at(hand, other);
        assert(rulebook::all_of(one, rank) && rulebook::all_of(two, rank));
        rulebook::law_equal_ranks_play_alike(one, two, rank, table);
    }
    lemma_first_not_behind(hand, at, m);
}

proof fn lemma_low_is_first(hand: Seq<Card>, m: int)
    requires
        ({
            let n = hand.len() as int;
            let low = bot::flat(0, n, bot::single_at(hand)) + bot::flat(
                0,
                n,
                bot::pairs_from(hand),
            );
            0 <= m < low.len()
        }),
    ensures
        ({
            let n = hand.len() as int;
            let low = bot::flat(0, n, bot::single_at(hand)) + bot::flat(
                0,
                n,
                bot::pairs_from(hand),
            );
            m < bot::combos_in(hand).len() && bot::combos_in(hand)[m] == low[m]
        }),
{
    let n = hand.len() as int;
    let a = bot::flat(0, n, bot::single_at(hand));
    let b = bot::flat(0, n, bot::pairs_from(hand));
    let c = bot::flat(0, 4, bot::straights_in(hand));
    let d = bot::flat(0, n, bot::five_i(hand));
    let e = bot::flat(0, 13, bot::bomb_of(hand));
    assert(bot::combos_in(hand) == a + b + c + d + e);
    assert((a + b + c)[m] == (a + b)[m]);
    assert((a + b + c + d)[m] == (a + b)[m]);
    assert((a + b + c + d + e)[m] == (a + b)[m]);
}

proof fn lemma_first_not_behind(hand: Seq<Card>, at: int, m: int)
    requires
        hand.len() <= usize::MAX,
        ({
            let n = hand.len() as int;
            let low = bot::flat(0, n, bot::single_at(hand)) + bot::flat(
                0,
                n,
                bot::pairs_from(hand),
            );
            &&& 0 <= at <= m < low.len()
        }),
        bot::combos_in(hand)[at].indices.len() == bot::combos_in(hand)[m].indices.len(),
        1 <= bot::combos_in(hand)[m].indices.len() <= 3,
    ensures
        not_behind(bot::combos_in(hand)[at].indices, bot::combos_in(hand)[m].indices),
{
    lemma_low_is_first(hand, m);
    lemma_low_is_first(hand, at);
    if at < m {
        lemma_low_in_place(hand, at, m);
    }
}

/// Entries of as many cards of one rank are equally weak.
proof fn lemma_same_strength(
    hand: Seq<Card>,
    f: FoundModel,
    g: FoundModel,
    one: Seq<usize>,
    two: Seq<usize>,
)
    requires
        hand.len() <= usize::MAX,
        f.indices == one,
        g.indices == two,
        bot::combos_in(hand).contains(f),
        g.combo == combo::combo_of(bot::cards_at(hand, two)).unwrap(),
        of_one_rank(hand, one),
        of_one_rank(hand, two),
        one.len() == two.len(),
        hand[one[0] as int].rank == hand[two[0] as int].rank,
    ensures
        f.strength(hand) == g.strength(hand),
{
    let rank = hand[one[0] as int].rank;
    bot::law_combos_are_in_hand(hand);
    let k = choose|k: int| 0 <= k < bot::combos_in(hand).len() && bot::combos_in(hand)[k] == f;
    assert(bot::combos_in(hand)[k].is_in(hand));
    let a = bot::cards_at(hand, one);
    let b = bot::cards_at(hand, two);
    assert(rulebook::all_of(a, rank) && rulebook::all_of(b, rank));
    rulebook::law_cards_of_one_rank(a, rank);
    rulebook::law_cards_of_one_rank(b, rank);
}

/// The first two cards of every entry of two or three have one rank.
proof fn lemma_pairs_share_a_rank(hand: Seq<Card>)
    requires
        hand.len() <= usize::MAX,
    ensures
        all_such(
            bot::flat(0, hand.len() as int, bot::pairs_from(hand)),
            |x: FoundModel|
                x.indices.len() >= 2 && hand[x.indices[0] as int].rank
                    == hand[x.indices[1] as int].rank,
        ),
{
    let n = hand.len() as int;
    let f = bot::pairs_from(hand);
    let p = |x: FoundModel|
        x.indices.len() >= 2 && hand[x.indices[0] as int].rank == hand[x.indices[1] as int].rank;
    assert forall|i: int| 0 <= i < n implies all_such(#[trigger] f(i), p) by {
        let g = bot::pair_at(hand, i);
        assert forall|j: int| i + 1 <= j < n implies all_such(#[trigger] g(j), p) by {
            lemma_begin_with_two(hand, i, j);
            let r = |x: FoundModel|
                2 <= x.indices.len() <= 3 && x.indices[0] == i as usize && x.indices[1]
                    == j as usize;
            assert forall|k: int| 0 <= k < g(j).len() implies p(#[trigger] g(j)[k]) by {
                assert(r(g(j)[k]));
            }
        }
        lemma_flat_all_such(i + 1, n, g, p);
        assert(f(i) == bot::flat(i + 1, n, g));
    }
    lemma_flat_all_such(0, n, f, p);
}

/// A bot leads with a straight only where it is weaker than every triple of the
/// hand: of a triple and a straight that are equally weak it takes the triple.
pub proof fn law_triples_before_straights(
    hand: Seq<Card>,
    lead: FoundModel,
    triple: Seq<usize>,
)
    requires
        0 < hand.len() <= usize::MAX,
        bot::weakest(hand, bot::combos_in(hand)) == Some(lead),
        lead.combo.combo_type == ComboType::Straight,
        of_one_rank(hand, triple),
        triple.len() == 3,
    ensures
        10 * lead.combo.main_rank() + lead.indices.len() < 10
            * hand[triple[0] as int].rank.index() + 3,
{
    let n = hand.len() as int;
    let list = bot::combos_in(hand);
    let a = bot::flat(0, n, bot::single_at(hand));
    let b = bot::flat(0, n, bot::pairs_from(hand));
    let m = lemma_entry_of_one_rank(hand, triple);
    lemma_low_is_first(hand, m);
    let at = answers::lemma_weakest_at(hand, list);
    bot::law_combos_are_in_hand(hand);
    assert(list[at].is_in(hand));
    let cards = bot::cards_at(hand, lead.indices);
    rulebook::law_straight(cards);
    let first = hand[lead.indices[0] as int].rank;
    assert(cards[0].rank == first && cards[1].rank == hand[lead.indices[1] as int].rank);
    assert(cards[0].rank != cards[1].rank);
    if at <= m {
        lemma_low_is_first(hand, at);
        lemma_singles(hand);
        lemma_pairs_share_a_rank(hand);
        let one = |x: FoundModel| x.indices.len() == 1;
        let share = |x: FoundModel|
            x.indices.len() >= 2 && hand[x.indices[0] as int].rank
                == hand[x.indices[1] as int].rank;
        if at < a.len() {
            assert((a + b)[at] == a[at]);
            assert(one(a[at]));
        } else {
            assert((a + b)[at] == b[at - a.len()]);
            assert(share(b[at - a.len()]));
        }
    }
    assert(list[at].strength(hand) < list[m].strength(hand));
    answers::lemma_strength_by_rank(hand, lead);
    let three = bot::cards_at(hand, triple);
    assert(rulebook::all_of(three, hand[triple[0] as int].rank));
    rulebook::law_cards_of_one_rank(three, hand[triple[0] as int].rank);
    answers::lemma_entry_cards(hand, lead);
}

/// The suit of an entry's first card, by its place among the suits.
spec fn suit_of(hand: Seq<Card>, x: FoundModel) -> int {
    hand[x.indices[0] as int].suit.index()
}

/// Suits go up through the list, and all are below `hi`.
spec fn suits_rise(hand: Seq<Card>, list: Seq<FoundModel>, hi: int) -> bool {
    &&& forall|k: int| 0 <= k < list.len() ==> suit_of(hand, #[trigger] list[k]) < hi
    &&& forall|a: int, b: int|
        0 <= a < b < list.len() ==> suit_of(hand, #[trigger] list[a]) <= suit_of(
            hand,
            #[trigger] list[b],
        )
}

proof fn lemma_flat_suits_rise(hand: Seq<Card>, hi: int, f: spec_fn(int) -> Seq<FoundModel>)
    requires
        0 <= hi,
        forall|s: int, k: int|
            0 <= s < hi && 0 <= k < f(s).len() ==> suit_of(hand, #[trigger] f(s)[k]) == s,
    ensures
        suits_rise(hand, bot::flat(0, hi, f), hi),
    decreases hi,
{
    if hi > 0 {
        lemma_flat_suits_rise(hand, hi - 1, f);
        let a = bot::flat(0, hi - 1, f);
        let b = f(hi - 1);
        let all = a + b;
        assert forall|k: int| 0 <= k < all.len() implies suit_of(hand, #[trigger] all[k]) < hi by {
            if k < a.len() {
                assert(all[k] == a[k]);
            } else {
                assert(all[k] == b[k - a.len()]);
            }
        }
        assert forall|i: int, j: int| 0 <= i < j < all.len() implies suit_of(hand, #[trigger] all[i])
            <= suit_of(hand, #[trigger] all[j]) by {
            if j < a.len() {
                assert(all[i] == a[i] && all[j] == a[j]);
            } else {
                assert(all[j] == b[j - a.len()]);
                if i < a.len() {
                    assert(all[i] == a[i]);
                } else {
                    assert(all[i] == b[i - a.len()]);
                }
            }
        }
    }
}

proof fn lemma_places_of_a_suit(hand: Seq<Card>, suit: int, n: int)
    requires
        n <= hand.len() <= usize::MAX,
    ensures
        forall|k: int|
            0 <= k < bot::suit_places(hand, suit, n).len() ==> hand[(#[trigger] bot::suit_places(
                hand,
                suit,
                n,
            )[k]) as int].suit.index() == suit,
    decreases n,
{
    if n > 0 {
        lemma_places_of_a_suit(hand, suit, n - 1);
        let prev = bot::suit_places(hand, suit, n - 1);
        let all = bot::suit_places(hand, suit, n);
        assert forall|k: int| 0 <= k < all.len() implies hand[(
        #[trigger] all[k]) as int].suit.index() == suit by {
            if k < prev.len() {
                assert(all[k] == prev[k]);
            }
        }
    }
}

/// The entries that are looked for within a suit are of that suit.
proof fn lemma_straights_by_suit(hand: Seq<Card>)
    requires
        hand.len() <= usize::MAX,
    ensures
        suits_rise(hand, bot::flat(0, 4, bot::straights_in(hand)), 4),
{
    let f = bot::straights_in(hand);
    assert forall|s: int, k: int| 0 <= s < 4 && 0 <= k < f(s).len() implies suit_of(
        hand,
        #[trigger] f(s)[k],
    ) == s by {
        let p = |x: FoundModel| suit_of(hand, x) == s;
        let places = bot::suit_places(hand, s, hand.len() as int);
        lemma_places_of_a_suit(hand, s, hand.len() as int);
        let top = bot::longest_window(places.len() as int) + 1;
        let g = bot::windows_of(hand, places);
        assert forall|len: int| 3 <= len < top implies all_such(#[trigger] g(len), p) by {
            let w = bot::window_at(hand, places, len);
            assert forall|start: int| 0 <= start < places.len() - len + 1 implies all_such(
                #[trigger] w(start),
                p,
            ) by {
                let part = places.subrange(start, start + len);
                assert(w(start) == bot::found(hand, part));
                assert(part[0] == places[start]);
            }
            lemma_flat_all_such(0, places.len() - len + 1, w, p);
            assert(g(len) == bot::flat(0, places.len() - len + 1, w));
        }
        lemma_flat_all_such(3, top, g, p);
        assert(f(s) == bot::flat(3, top, g));
        assert(p(f(s)[k]));
    }
    lemma_flat_suits_rise(hand, 4, f);
}

/// A bot that leads with a straight leads with the lowest suit that has one as
/// long and as high.
pub proof fn law_leads_with_the_lowest_straight(
    hand: Seq<Card>,
    lead: FoundModel,
    other: FoundModel,
)
    requires
        answers::in_order(hand),
        0 < hand.len() <= usize::MAX,
        bot::weakest(hand, bot::combos_in(hand)) == Some(lead),
        lead.combo.combo_type == ComboType::Straight,
        other.is_in(hand),
        other.combo.combo_type == ComboType::Straight,
        other.indices.len() == lead.indices.len(),
        other.combo.main_rank() == lead.combo.main_rank(),
    ensures
        hand[lead.indices[0] as int].suit.index() <= hand[other.indices[0] as int].suit.index(),
{
    let n = hand.len() as int;
    let list = bot::combos_in(hand);
    let a = bot::flat(0, n, bot::single_at(hand));
    let b = bot::flat(0, n, bot::pairs_from(hand));
    let c = bot::flat(0, 4, bot::straights_in(hand));
    let d = bot::flat(0, n, bot::five_i(hand));
    let e = bot::flat(0, 13, bot::bomb_of(hand));
    let low = (a + b).len();
    bot::law_combos_are_in_hand(hand);
    let at = answers::lemma_weakest_at(hand, list);
    assert(list[at].is_in(hand));
    rulebook::law_straight(bot::cards_at(hand, other.indices));
    rulebook::law_straight(bot::cards_at(hand, lead.indices));
    answers::lemma_finds_straight(hand, other);
    let m = choose|m: int| 0 <= m < c.len() && c[m] == other;
    assert(list == a + b + c + d + e);
    assert forall|k: int| 0 <= k < c.len() implies #[trigger] list[low + k] == c[k] by {
        assert((a + b + c)[low + k] == c[k]);
        assert((a + b + c + d)[low + k] == (a + b + c)[low + k]);
    }
    assert(list[low + m] == other);
    answers::lemma_strength_by_rank(hand, lead);
    answers::lemma_strength_by_rank(hand, other);
    answers::lemma_entry_cards(hand, lead);
    answers::lemma_entry_cards(hand, other);
    assert(at <= low + m);
    lemma_straights_by_suit(hand);
    if at < low {
        lemma_low_is_first(hand, at);
        lemma_singles(hand);
        lemma_pairs_share_a_rank(hand);
        let one = |x: FoundModel| x.indices.len() == 1;
        let share = |x: FoundModel|
            x.indices.len() >= 2 && hand[x.indices[0] as int].rank
                == hand[x.indices[1] as int].rank;
        let cards = bot::cards_at(hand, lead.indices);
        assert(cards[0].rank != cards[1].rank);
        if at < a.len() {
            assert((a + b)[at] == a[at]);
            assert(one(a[at]));
        } else {
            assert((a + b)[at] == b[at - a.len()]);
            assert(share(b[at - a.len()]));
        }
    } else {
        assert(list[low + (at - low)] == c[at - low]);
        if at - low < m {
            assert(suit_of(hand, c[at - low]) <= suit_of(hand, c[m]));
        }
    }
}

} // verus!
