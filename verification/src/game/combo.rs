//! Combinations of cards and how they compare.
use crate::game::card;
use crate::game::card::Card;
use vstd::prelude::*;

verus! {

#[derive(Debug, Clone, Copy, PartialEq, Eq, Structural)]
pub enum ComboType {
    Single,
    Pair,
    Triple,
    Straight,
    FullHouse,
    FourKind,
    /// Four cards of one rank and nothing else: the answer to a single two.
    Bomb,
}

/// A combination: its kind and its cards in the order of a hand.
#[derive(Debug)]
pub struct Combo {
    pub combo_type: ComboType,
    pub cards: Vec<Card>,
}

#[verifier::ext_equal]
pub struct ComboModel {
    pub combo_type: ComboType,
    pub cards: Seq<Card>,
}

impl View for Combo {
    type V = ComboModel;

    open spec fn view(&self) -> ComboModel {
        ComboModel { combo_type: self.combo_type, cards: self.cards@ }
    }
}

impl Clone for Combo {
    fn clone(&self) -> (r: Self)
        ensures
            r@ == self@,
    {
        Combo { combo_type: self.combo_type, cards: copy_cards(&self.cards) }
    }
}

impl ComboType {
    /// How the kind is called.
    pub open spec fn text(self) -> Seq<char> {
        match self {
            ComboType::Single => "Single"@,
            ComboType::Pair => "Pair"@,
            ComboType::Triple => "Triple"@,
            ComboType::Straight => "Straight"@,
            ComboType::FullHouse => "Full House"@,
            ComboType::FourKind => "Four of a Kind"@,
            ComboType::Bomb => "Bomb"@,
        }
    }

    /// The name of the kind.
    pub fn to_string(&self) -> (r: String)
        ensures
            r@ == self.text(),
    {
        match self {
            ComboType::Single => "Single".to_owned(),
            ComboType::Pair => "Pair".to_owned(),
            ComboType::Triple => "Triple".to_owned(),
            ComboType::Straight => "Straight".to_owned(),
            ComboType::FullHouse => "Full House".to_owned(),
            ComboType::FourKind => "Four of a Kind".to_owned(),
            ComboType::Bomb => "Bomb".to_owned(),
        }
    }
}

/// Three or more different ranks that follow one another without a gap, all of
/// them numbers (three to nine) or all of them letters (ten to ace). A two is
/// in no straight.
pub open spec fn straight_ranks(ranks: Seq<usize>) -> bool {
    &&& ranks.len() >= 3
    &&& ranks.no_duplicates()
    &&& (all_within(ranks, 0, 7) || all_within(ranks, 7, 12))
    &&& exists|lo: int| #[trigger] all_within(ranks, lo, lo + ranks.len())
}

/// Every rank is at least `lo` and below `hi`.
pub open spec fn all_within(ranks: Seq<usize>, lo: int, hi: int) -> bool {
    forall|i: int| 0 <= i < ranks.len() ==> lo <= #[trigger] ranks[i] < hi
}

/// The rank indices of the cards.
pub open spec fn card_ranks(cards: Seq<Card>) -> Seq<usize> {
    cards.map_values(|c: Card| c.rank.index() as usize)
}

/// How many of the cards have the rank with index `rank`.
pub open spec fn rank_count(cards: Seq<Card>, rank: int) -> nat
    decreases cards.len(),
{
    if cards.len() == 0 {
        0
    } else {
        rank_count(cards.drop_last(), rank) + if cards.last().rank.index() == rank {
            1nat
        } else {
            0nat
        }
    }
}

/// The lowest rank, at or above `from`, that exactly `count` of the cards have.
pub open spec fn rank_with_count(cards: Seq<Card>, count: nat, from: int) -> Option<int>
    decreases 13 - from,
{
    if from >= 13 {
        None
    } else if rank_count(cards, from) == count {
        Some(from)
    } else {
        rank_with_count(cards, count, from + 1)
    }
}

/// Some rank is held by exactly `count` of the cards.
pub open spec fn has_group(cards: Seq<Card>, count: nat) -> bool {
    rank_with_count(cards, count, 0) is Some
}

pub open spec fn same_rank(cards: Seq<Card>) -> bool {
    forall|i: int| 0 <= i < cards.len() ==> (#[trigger] cards[i]).rank == cards[0].rank
}

pub open spec fn same_suit(cards: Seq<Card>) -> bool {
    forall|i: int| 0 <= i < cards.len() ==> (#[trigger] cards[i]).suit == cards[0].suit
}

/// Cards of one suit whose ranks make a straight.
pub open spec fn suited_straight(cards: Seq<Card>) -> bool {
    same_suit(cards) && straight_ranks(card_ranks(cards))
}

/// The kind of combination that the cards make, if they make one.
pub open spec fn combo_type_of(cards: Seq<Card>) -> Option<ComboType> {
    if cards.len() == 1 {
        Some(ComboType::Single)
    } else if cards.len() == 2 && same_rank(cards) {
        Some(ComboType::Pair)
    } else if cards.len() == 3 && same_rank(cards) {
        Some(ComboType::Triple)
    } else if cards.len() == 4 && same_rank(cards) {
        Some(ComboType::Bomb)
    } else if cards.len() == 5 && has_group(cards, 4) {
        Some(ComboType::FourKind)
    } else if cards.len() == 5 && has_group(cards, 3) && has_group(cards, 2) {
        Some(ComboType::FullHouse)
    } else if 3 <= cards.len() <= 5 && suited_straight(cards) {
        Some(ComboType::Straight)
    } else {
        None
    }
}

/// The combination that the cards make, if they make one.
pub open spec fn combo_of(cards: Seq<Card>) -> Option<ComboModel> {
    match combo_type_of(cards) {
        Some(t) => Some(ComboModel { combo_type: t, cards: card::sorted_cards(cards) }),
        None => None,
    }
}

/// The rank that stands for a group of `count` cards: the lowest rank with that
/// many cards, or the first card's where there is none.
pub open spec fn group_rank(cards: Seq<Card>, count: nat) -> int {
    match rank_with_count(cards, count, 0) {
        Some(r) => r,
        None => cards[0].rank.index(),
    }
}

/// The rank of the first card, from index `from`, that is not of rank `quad`;
/// 0 where there is none.
pub open spec fn kicker_rank(cards: Seq<Card>, quad: int, from: int) -> int
    decreases cards.len() - from,
{
    if from >= cards.len() {
        0
    } else if cards[from].rank.index() != quad {
        cards[from].rank.index()
    } else {
        kicker_rank(cards, quad, from + 1)
    }
}

impl ComboModel {
    /// The rank by which combinations of one kind are compared first.
    pub open spec fn main_rank(self) -> int {
        match self.combo_type {
            ComboType::Single => self.cards[0].rank.index(),
            ComboType::Bomb => self.cards[0].rank.index(),
            ComboType::Pair => self.cards.last().rank.index(),
            ComboType::Triple => self.cards.last().rank.index(),
            ComboType::Straight => self.cards.last().rank.index(),
            ComboType::FullHouse => group_rank(self.cards, 3),
            ComboType::FourKind => group_rank(self.cards, 4),
        }
    }

    /// The rank that decides between combinations with the same main rank.
    pub open spec fn second_rank(self) -> int {
        match self.combo_type {
            ComboType::FullHouse => group_rank(self.cards, 2),
            ComboType::FourKind => kicker_rank(self.cards, group_rank(self.cards, 4), 0),
            _ => 0,
        }
    }

    /// By how much the combination is above `other`: positive where it is
    /// higher, negative where it is lower, 0 where neither is. Nothing where
    /// the kinds differ.
    pub open spec fn above(self, other: ComboModel) -> Option<int> {
        if self.combo_type != other.combo_type {
            None
        } else if self.main_rank() != other.main_rank() {
            Some(self.main_rank() - other.main_rank())
        } else {
            Some(self.second_rank() - other.second_rank())
        }
    }
}

/// Comparing the other way round gives the opposite answer.
pub proof fn law_compare_antisymmetric(a: ComboModel, b: ComboModel)
    ensures
        a.above(b) is Some <==> b.above(a) is Some,
        a.above(b) matches Some(d) ==> b.above(a) == Some(-d),
{
}

/// What is above something that is above a third is above the third.
pub proof fn law_compare_transitive(a: ComboModel, b: ComboModel, c: ComboModel)
    requires
        a.above(b) matches Some(d) && d > 0,
        b.above(c) matches Some(d) && d > 0,
    ensures
        a.above(c) matches Some(d) && d > 0,
{
}

/// Suits never decide: cards of the same ranks in the same places compare as
/// equal.
pub proof fn law_compare_ignores_suits(a: ComboModel, b: ComboModel)
    requires
        a.combo_type == b.combo_type,
        a.cards.len() == b.cards.len() > 0,
        forall|i: int| 0 <= i < a.cards.len() ==> (#[trigger] a.cards[i]).rank == b.cards[i].rank,
    ensures
        a.above(b) == Some(0int),
{
    lemma_rank_with_count_ranks(a.cards, b.cards, 2, 0);
    lemma_rank_with_count_ranks(a.cards, b.cards, 3, 0);
    lemma_rank_with_count_ranks(a.cards, b.cards, 4, 0);
    assert(a.cards[0].rank == b.cards[0].rank);
    lemma_kicker_ranks(a.cards, b.cards, group_rank(a.cards, 4), 0);
}

proof fn lemma_rank_count_ranks(a: Seq<Card>, b: Seq<Card>, rank: int)
    requires
        a.len() == b.len(),
        forall|i: int| 0 <= i < a.len() ==> (#[trigger] a[i]).rank == b[i].rank,
    ensures
        rank_count(a, rank) == rank_count(b, rank),
    decreases a.len(),
{
    if a.len() > 0 {
        assert forall|i: int| 0 <= i < a.drop_last().len() implies (#[trigger] a.drop_last()[i]).rank
            == b.drop_last()[i].rank by {
            assert(a[i].rank == b[i].rank);
        }
        lemma_rank_count_ranks(a.drop_last(), b.drop_last(), rank);
        assert(a[a.len() - 1].rank == b[b.len() - 1].rank);
    }
}

proof fn lemma_rank_with_count_ranks(a: Seq<Card>, b: Seq<Card>, count: nat, from: int)
    requires
        a.len() == b.len(),
        forall|i: int| 0 <= i < a.len() ==> (#[trigger] a[i]).rank == b[i].rank,
    ensures
        rank_with_count(a, count, from) == rank_with_count(b, count, from),
    decreases 13 - from,
{
    if from < 13 {
        lemma_rank_count_ranks(a, b, from);
        lemma_rank_with_count_ranks(a, b, count, from + 1);
    }
}

proof fn lemma_kicker_ranks(a: Seq<Card>, b: Seq<Card>, quad: int, from: int)
    requires
        a.len() == b.len(),
        0 <= from,
        forall|i: int| 0 <= i < a.len() ==> (#[trigger] a[i]).rank == b[i].rank,
    ensures
        kicker_rank(a, quad, from) == kicker_rank(b, quad, from),
    decreases a.len() - from,
{
    if from < a.len() {
        assert(a[from].rank == b[from].rank);
        lemma_kicker_ranks(a, b, quad, from + 1);
    }
}

/// A copy of a list of cards.
pub fn copy_cards(cards: &Vec<Card>) -> (r: Vec<Card>)
    ensures
        r@ == cards@,
{
    let mut out: Vec<Card> = Vec::new();
    let mut i: usize = 0;
    while i < cards.len()
        invariant
            i <= cards.len(),
            out@ == cards@.take(i as int),
        decreases cards.len() - i,
    {
        out.push(cards[i]);
        assert(out@ =~= cards@.take(i + 1));
        i += 1;
    }
    assert(cards@.take(cards.len() as int) =~= cards@);
    out
}

/// Do the ranks make a straight?
pub fn is_straight(ranks: &[usize]) -> (r: bool)
    ensures
        r == straight_ranks(ranks@),
{
    let n: usize = ranks.len();
    if n < 3 {
        return false;
    }
    let mut lo: usize = ranks[0];
    let mut hi: usize = ranks[0];
    let mut i: usize = 1;
    while i < n
        invariant
            1 <= i <= n,
            n == ranks@.len(),
            forall|k: int| 0 <= k < i ==> lo <= #[trigger] ranks@[k] <= hi,
            exists|k: int| 0 <= k < i && #[trigger] ranks@[k] == lo,
            exists|k: int| 0 <= k < i && #[trigger] ranks@[k] == hi,
        decreases n - i,
    {
        let v: usize = ranks[i];
        let ghost k0 = choose|k: int| 0 <= k < i && #[trigger] ranks@[k] == lo;
        let ghost k1 = choose|k: int| 0 <= k < i && #[trigger] ranks@[k] == hi;
        if v < lo {
            lo = v;
        }
        if v > hi {
            hi = v;
        }
        i += 1;
        assert(ranks@[i - 1] == lo || ranks@[k0] == lo);
        assert(ranks@[i - 1] == hi || ranks@[k1] == hi);
    }
    let ghost k0 = choose|k: int| 0 <= k < n && #[trigger] ranks@[k] == lo;
    let ghost k1 = choose|k: int| 0 <= k < n && #[trigger] ranks@[k] == hi;
    assert(ranks@[k0] == lo && ranks@[k1] == hi);
    if !(hi < 7 || (7 <= lo && hi < 12)) {
        return false;
    }
    if hi - lo >= n {
        return false;
    }
    assert(all_within(ranks@, lo as int, lo + ranks@.len()));
    distinct(ranks)
}

/// Are the numbers all different?
fn distinct(v: &[usize]) -> (r: bool)
    ensures
        r == v@.no_duplicates(),
{
    let n: usize = v.len();
    let mut i: usize = 0;
    while i < n
        invariant
            i <= n,
            n == v@.len(),
            forall|a: int, b: int| 0 <= a < i && 0 <= b < i && a != b ==> v@[a] != v@[b],
        decreases n - i,
    {
        let mut j: usize = 0;
        while j < i
            invariant
                j <= i < n,
                n == v@.len(),
                forall|a: int| 0 <= a < j ==> v@[a] != v@[i as int],
            decreases i - j,
        {
            if v[j] == v[i] {
                assert(v@[j as int] == v@[i as int]);
                return false;
            }
            j += 1;
        }
        i += 1;
    }
    true
}

/// The rank indices of the cards.
fn ranks_of(cards: &[Card]) -> (r: Vec<usize>)
    ensures
        r@ == card_ranks(cards@),
{
    let mut out: Vec<usize> = Vec::new();
    let mut i: usize = 0;
    while i < cards.len()
        invariant
            i <= cards@.len(),
            out.len() == i,
            forall|k: int| 0 <= k < i ==> #[trigger] out@[k] == cards@[k].rank.index() as usize,
        decreases cards@.len() - i,
    {
        out.push(cards[i].rank_index());
        i += 1;
    }
    assert(out@ =~= card_ranks(cards@));
    out
}

/// How many of the cards have the rank with index `rank`.
pub fn count_rank(cards: &[Card], rank: usize) -> (r: usize)
    ensures
        r == rank_count(cards@, rank as int),
        r <= cards@.len(),
{
    let mut n: usize = 0;
    let mut i: usize = 0;
    assert(cards@.take(0) =~= Seq::<Card>::empty());
    while i < cards.len()
        invariant
            i <= cards@.len(),
            n <= i,
            n == rank_count(cards@.take(i as int), rank as int),
        decreases cards@.len() - i,
    {
        if cards[i].rank_index() == rank {
            n += 1;
        }
        proof {
            let t = cards@.take(i + 1);
            assert(t.drop_last() =~= cards@.take(i as int));
            assert(t.last() == cards@[i as int]);
        }
        i += 1;
    }
    assert(cards@.take(cards@.len() as int) =~= cards@);
    n
}

/// The lowest rank that exactly `count` of the cards have.
fn find_group(cards: &[Card], count: usize) -> (r: Option<usize>)
    ensures
        r matches Some(rank) ==> rank < 13 && rank_with_count(cards@, count as nat, 0) == Some(
            rank as int,
        ),
        r is None ==> rank_with_count(cards@, count as nat, 0) is None,
{
    let mut rank: usize = 0;
    while rank < 13
        invariant
            rank <= 13,
            rank_with_count(cards@, count as nat, 0) == rank_with_count(
                cards@,
                count as nat,
                rank as int,
            ),
        decreases 13 - rank,
    {
        if count_rank(cards, rank) == count {
            return Some(rank);
        }
        rank += 1;
    }
    None
}

fn all_same_rank(cards: &[Card]) -> (r: bool)
    ensures
        r == same_rank(cards@),
{
    let mut i: usize = 0;
    while i < cards.len()
        invariant
            i <= cards@.len(),
            forall|k: int| 0 <= k < i ==> (#[trigger] cards@[k]).rank == cards@[0].rank,
        decreases cards@.len() - i,
    {
        if cards[i].rank != cards[0].rank {
            return false;
        }
        i += 1;
    }
    true
}

fn all_same_suit(cards: &[Card]) -> (r: bool)
    ensures
        r == same_suit(cards@),
{
    let mut i: usize = 0;
    while i < cards.len()
        invariant
            i <= cards@.len(),
            forall|k: int| 0 <= k < i ==> (#[trigger] cards@[k]).suit == cards@[0].suit,
        decreases cards@.len() - i,
    {
        if cards[i].suit != cards[0].suit {
            return false;
        }
        i += 1;
    }
    true
}

fn is_suited_straight(cards: &[Card]) -> (r: bool)
    ensures
        r == suited_straight(cards@),
{
    if !all_same_suit(cards) {
        return false;
    }
    let ranks = ranks_of(cards);
    is_straight(ranks.as_slice())
}

fn detect_type(cards: &[Card]) -> (r: Option<ComboType>)
    ensures
        r == combo_type_of(cards@),
{
    let n: usize = cards.len();
    if n == 1 {
        return Some(ComboType::Single);
    }
    if n == 2 && all_same_rank(cards) {
        return Some(ComboType::Pair);
    }
    if n == 3 && all_same_rank(cards) {
        return Some(ComboType::Triple);
    }
    if n == 4 && all_same_rank(cards) {
        return Some(ComboType::Bomb);
    }
    if n == 5 {
        if find_group(cards, 4).is_some() {
            return Some(ComboType::FourKind);
        }
        if find_group(cards, 3).is_some() && find_group(cards, 2).is_some() {
            return Some(ComboType::FullHouse);
        }
    }
    if 3 <= n && n <= 5 && is_suited_straight(cards) {
        return Some(ComboType::Straight);
    }
    None
}

/// The combination that the cards make, with its cards in the order of a hand;
/// `None` where they make none.
pub fn detect_combo(cards: &[Card]) -> (r: Option<Combo>)
    ensures
        r is Some <==> combo_of(cards@) is Some,
        r matches Some(c) ==> combo_of(cards@) == Some(c@),
{
    match detect_type(cards) {
        Some(combo_type) => {
            let mut sorted: Vec<Card> = Vec::new();
            let mut i: usize = 0;
            while i < cards.len()
                invariant
                    i <= cards@.len(),
                    sorted@ == cards@.take(i as int),
                decreases cards@.len() - i,
            {
                sorted.push(cards[i]);
                assert(sorted@ =~= cards@.take(i + 1));
                i += 1;
            }
            assert(cards@.take(cards@.len() as int) =~= cards@);
            card::sort_cards(&mut sorted);
            Some(Combo { combo_type, cards: sorted })
        },
        None => None,
    }
}

/// The rank that stands for a group of `count` cards.
pub fn find_group_rank(cards: &Vec<Card>, count: usize) -> (r: usize)
    requires
        cards.len() > 0,
    ensures
        r == group_rank(cards@, count as nat),
        r < 13,
{
    match find_group(cards.as_slice(), count) {
        Some(rank) => rank,
        None => cards[0].rank_index(),
    }
}

/// The rank of the first card that is not of rank `quad`, else 0.
fn find_kicker(cards: &Vec<Card>, quad: usize) -> (r: usize)
    ensures
        r == kicker_rank(cards@, quad as int, 0),
        r < 13,
{
    let mut i: usize = 0;
    while i < cards.len()
        invariant
            i <= cards.len(),
            kicker_rank(cards@, quad as int, 0) == kicker_rank(cards@, quad as int, i as int),
        decreases cards.len() - i,
    {
        if cards[i].rank_index() != quad {
            return cards[i].rank_index();
        }
        i += 1;
    }
    0
}

/// Compares two combinations of the same kind: positive if `combo_a` is
/// higher, negative if it is lower, 0 if neither is; `None` if the kinds
/// differ.
pub fn compare_combos(combo_a: &Combo, combo_b: &Combo) -> (r: Option<i32>)
    requires
        combo_a.combo_type == combo_b.combo_type ==> combo_a.cards.len() > 0 && combo_b.cards.len()
            > 0,
    ensures
        r is Some <==> combo_a@.above(combo_b@) is Some,
        r matches Some(d) ==> combo_a@.above(combo_b@) == Some(d as int),
{
    if combo_a.combo_type != combo_b.combo_type {
        return None;
    }
    let (a_main, a_second) = comparison_ranks(combo_a);
    let (b_main, b_second) = comparison_ranks(combo_b);
    if a_main != b_main {
        return Some(a_main as i32 - b_main as i32);
    }
    Some(a_second as i32 - b_second as i32)
}

/// The ranks by which a combination is compared, the weightier first.
fn comparison_ranks(combo: &Combo) -> (r: (usize, usize))
    requires
        combo.cards.len() > 0,
    ensures
        r.0 == combo@.main_rank(),
        r.1 == combo@.second_rank(),
        r.0 < 13,
        r.1 < 13,
{
    let last: usize = combo.cards.len() - 1;
    match combo.combo_type {
        ComboType::Single => (combo.cards[0].rank_index(), 0),
        ComboType::Bomb => (combo.cards[0].rank_index(), 0),
        ComboType::Pair => (combo.cards[last].rank_index(), 0),
        ComboType::Triple => (combo.cards[last].rank_index(), 0),
        ComboType::Straight => (combo.cards[last].rank_index(), 0),
        ComboType::FullHouse => (
            find_group_rank(&combo.cards, 3),
            find_group_rank(&combo.cards, 2),
        ),
        ComboType::FourKind => {
            let quad: usize = find_group_rank(&combo.cards, 4);
            (quad, find_kicker(&combo.cards, quad))
        },
    }
}

} // verus!
