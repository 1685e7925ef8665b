//! Playing cards: ranks, suits, the deck and the order of a sorted hand.
use crate::game::sorting;
use crate::text;
use rand::seq::SliceRandom;
use vstd::prelude::*;
use vstd::relations::*;
use vstd::seq_lib::*;

verus! {

/// The ranks, from the lowest to the highest.
#[derive(Debug, Clone, Copy, PartialEq, Eq, Hash, PartialOrd, Ord, Structural)]
pub enum Rank {
    Three,
    Four,
    Five,
    Six,
    Seven,
    Eight,
    Nine,
    Ten,
    Jack,
    Queen,
    King,
    Ace,
    Two,
}

/// The suits, from the lowest to the highest.
#[derive(Debug, Clone, Copy, PartialEq, Eq, Hash, PartialOrd, Ord, Structural)]
pub enum Suit {
    Diamonds,
    Clubs,
    Hearts,
    Spades,
}

#[derive(Debug, Clone, Copy, PartialEq, Eq, Hash, Structural)]
pub struct Card {
    pub rank: Rank,
    pub suit: Suit,
}

impl Rank {
    /// The place of the rank in the order of ranks, from 0 for a three to 12
    /// for a two.
    pub open spec fn index(self) -> int {
        match self {
            Rank::Three => 0,
            Rank::Four => 1,
            Rank::Five => 2,
            Rank::Six => 3,
            Rank::Seven => 4,
            Rank::Eight => 5,
            Rank::Nine => 6,
            Rank::Ten => 7,
            Rank::Jack => 8,
            Rank::Queen => 9,
            Rank::King => 10,
            Rank::Ace => 11,
            Rank::Two => 12,
        }
    }

    /// The rank with a given place in the order.
    pub open spec fn at(i: int) -> Rank {
        if i == 0 {
            Rank::Three
        } else if i == 1 {
            Rank::Four
        } else if i == 2 {
            Rank::Five
        } else if i == 3 {
            Rank::Six
        } else if i == 4 {
            Rank::Seven
        } else if i == 5 {
            Rank::Eight
        } else if i == 6 {
            Rank::Nine
        } else if i == 7 {
            Rank::Ten
        } else if i == 8 {
            Rank::Jack
        } else if i == 9 {
            Rank::Queen
        } else if i == 10 {
            Rank::King
        } else if i == 11 {
            Rank::Ace
        } else {
            Rank::Two
        }
    }

    /// How the rank is written.
    pub open spec fn text(self) -> Seq<char> {
        match self {
            Rank::Three => "3"@,
            Rank::Four => "4"@,
            Rank::Five => "5"@,
            Rank::Six => "6"@,
            Rank::Seven => "7"@,
            Rank::Eight => "8"@,
            Rank::Nine => "9"@,
            Rank::Ten => "10"@,
            Rank::Jack => "J"@,
            Rank::Queen => "Q"@,
            Rank::King => "K"@,
            Rank::Ace => "A"@,
            Rank::Two => "2"@,
        }
    }

    fn letters(&self) -> (r: &'static str)
        ensures
            r@ == self.text(),
    {
        match self {
            Rank::Three => "3",
            Rank::Four => "4",
            Rank::Five => "5",
            Rank::Six => "6",
            Rank::Seven => "7",
            Rank::Eight => "8",
            Rank::Nine => "9",
            Rank::Ten => "10",
            Rank::Jack => "J",
            Rank::Queen => "Q",
            Rank::King => "K",
            Rank::Ace => "A",
            Rank::Two => "2",
        }
    }

    /// The rank as it is written.
    pub fn to_string(&self) -> (r: String)
        ensures
            r@ == self.text(),
    {
        self.letters().to_owned()
    }

    fn nth(i: usize) -> (r: Rank)
        requires
            i < 13,
        ensures
            r == Rank::at(i as int),
    {
        match i {
            0 => Rank::Three,
            1 => Rank::Four,
            2 => Rank::Five,
            3 => Rank::Six,
            4 => Rank::Seven,
            5 => Rank::Eight,
            6 => Rank::Nine,
            7 => Rank::Ten,
            8 => Rank::Jack,
            9 => Rank::Queen,
            10 => Rank::King,
            11 => Rank::Ace,
            _ => Rank::Two,
        }
    }
}

impl Suit {
    /// The place of the suit in the order of suits, from 0 for diamonds to 3
    /// for spades.
    pub open spec fn index(self) -> int {
        match self {
            Suit::Diamonds => 0,
            Suit::Clubs => 1,
            Suit::Hearts => 2,
            Suit::Spades => 3,
        }
    }

    /// The suit with a given place in the order.
    pub open spec fn at(i: int) -> Suit {
        if i == 0 {
            Suit::Diamonds
        } else if i == 1 {
            Suit::Clubs
        } else if i == 2 {
            Suit::Hearts
        } else {
            Suit::Spades
        }
    }

    /// The symbol of the suit.
    pub open spec fn text(self) -> Seq<char> {
        match self {
            Suit::Diamonds => "♦"@,
            Suit::Clubs => "♣"@,
            Suit::Hearts => "♥"@,
            Suit::Spades => "♠"@,
        }
    }

    /// The name of the suit in a card's id.
    pub open spec fn word(self) -> Seq<char> {
        match self {
            Suit::Diamonds => "diamonds"@,
            Suit::Clubs => "clubs"@,
            Suit::Hearts => "hearts"@,
            Suit::Spades => "spades"@,
        }
    }

    fn symbol(&self) -> (r: &'static str)
        ensures
            r@ == self.text(),
    {
        match self {
            Suit::Diamonds => "♦",
            Suit::Clubs => "♣",
            Suit::Hearts => "♥",
            Suit::Spades => "♠",
        }
    }

    fn name(&self) -> (r: &'static str)
        ensures
            r@ == self.word(),
    {
        match self {
            Suit::Diamonds => "diamonds",
            Suit::Clubs => "clubs",
            Suit::Hearts => "hearts",
            Suit::Spades => "spades",
        }
    }

    /// The suit's symbol.
    pub fn to_string(&self) -> (r: String)
        ensures
            r@ == self.text(),
    {
        self.symbol().to_owned()
    }

    fn nth(i: usize) -> (r: Suit)
        requires
            i < 4,
        ensures
            r == Suit::at(i as int),
    {
        match i {
            0 => Suit::Diamonds,
            1 => Suit::Clubs,
            2 => Suit::Hearts,
            _ => Suit::Spades,
        }
    }
}

impl Card {
    /// The place of the card in a hand's order: by rank, then by suit.
    pub open spec fn key(self) -> int {
        self.rank.index() * 4 + self.suit.index()
    }

    /// Rank and symbol, as the card is shown.
    pub open spec fn text(self) -> Seq<char> {
        self.rank.text() + self.suit.text()
    }

    /// The id by which a client names the card: rank, colon, suit name.
    pub open spec fn id(self) -> Seq<char> {
        self.rank.text() + ":"@ + self.suit.word()
    }

    pub fn new(rank: Rank, suit: Suit) -> (r: Self)
        ensures
            r == (Card { rank, suit }),
    {
        Card { rank, suit }
    }

    /// The place of the card's rank in the order of ranks.
    pub fn rank_index(&self) -> (r: usize)
        ensures
            r == self.rank.index(),
            r < 13,
    {
        match self.rank {
            Rank::Three => 0,
            Rank::Four => 1,
            Rank::Five => 2,
            Rank::Six => 3,
            Rank::Seven => 4,
            Rank::Eight => 5,
            Rank::Nine => 6,
            Rank::Ten => 7,
            Rank::Jack => 8,
            Rank::Queen => 9,
            Rank::King => 10,
            Rank::Ace => 11,
            Rank::Two => 12,
        }
    }

    /// The place of the card's suit in the order of suits.
    pub fn suit_index(&self) -> (r: usize)
        ensures
            r == self.suit.index(),
            r < 4,
    {
        match self.suit {
            Suit::Diamonds => 0,
            Suit::Clubs => 1,
            Suit::Hearts => 2,
            Suit::Spades => 3,
        }
    }

    /// The card as it is shown, such as `10♦`.
    pub fn label(&self) -> (r: String)
        ensures
            r@ == self.text(),
    {
        let mut s = self.rank.to_string();
        s.append(self.suit.symbol());
        s
    }

    /// The card as it is shown.
    pub fn to_string(&self) -> (r: String)
        ensures
            r@ == self.text(),
    {
        self.label()
    }

    /// The card's id, such as `10:diamonds`.
    pub fn card_id(&self) -> (r: String)
        ensures
            r@ == self.id(),
    {
        let mut s = self.rank.to_string();
        s.append(":");
        s.append(self.suit.name());
        s
    }
}

/// Does `a` stand before `b`, or in the same place, in a sorted hand?
pub open spec fn card_leq() -> spec_fn(Card, Card) -> bool {
    |a: Card, b: Card| a.key() <= b.key()
}

/// The cards in the order of a hand: by rank, then by suit.
pub open spec fn sorted_cards(cards: Seq<Card>) -> Seq<Card> {
    cards.sort_by(card_leq())
}

/// The texts of the cards.
pub open spec fn card_texts(cards: Seq<Card>) -> Seq<Seq<char>> {
    cards.map_values(|c: Card| c.text())
}

/// The full deck: suit by suit, each from three to two.
pub open spec fn full_deck() -> Seq<Card> {
    Seq::new(52, |i: int| Card { rank: Rank::at(i % 13), suit: Suit::at(i / 13) })
}

/// Two cards with the same place in a sorted hand are the same card.
pub proof fn lemma_key_injective(a: Card, b: Card)
    requires
        a.key() == b.key(),
    ensures
        a == b,
{
}

/// The order of a hand is a total order.
pub proof fn lemma_card_order_total()
    ensures
        total_ordering(card_leq()),
{
}

/// Sorting keeps the cards, puts them in ascending order, and no other list of
/// the same cards is in ascending order.
pub proof fn lemma_sorted_cards(cards: Seq<Card>)
    ensures
        sorted_by(sorted_cards(cards), card_leq()),
        sorted_cards(cards).to_multiset() == cards.to_multiset(),
        sorted_cards(cards).len() == cards.len(),
        forall|s: Seq<Card>|
            sorted_by(s, card_leq()) && #[trigger] s.to_multiset() == cards.to_multiset() ==> s
                == sorted_cards(cards),
{
    lemma_card_order_total();
    cards.lemma_sort_by_ensures(card_leq());
    cards.to_multiset_ensures();
    sorted_cards(cards).to_multiset_ensures();
    assert forall|s: Seq<Card>|
        sorted_by(s, card_leq()) && #[trigger] s.to_multiset() == cards.to_multiset() implies s
        == sorted_cards(cards) by {
        lemma_sorted_unique(s, sorted_cards(cards), card_leq());
    }
}

/// No card stands twice in the deck.
pub proof fn law_deck_no_duplicates()
    ensures
        full_deck().no_duplicates(),
{
    assert forall|i: int, j: int| 0 <= i < 52 && 0 <= j < 52 && i != j implies full_deck()[i]
        != full_deck()[j] by {
        assert(i == 13 * (i / 13) + i % 13);
        assert(j == 13 * (j / 13) + j % 13);
        assert(full_deck()[i].rank.index() == i % 13);
        assert(full_deck()[j].rank.index() == j % 13);
        assert(full_deck()[i].suit.index() == i / 13);
        assert(full_deck()[j].suit.index() == j / 13);
    }
}

/// Every card stands in the deck.
pub proof fn law_deck_complete(c: Card)
    ensures
        full_deck().contains(c),
{
    let i = 13 * c.suit.index() + c.rank.index();
    assert(full_deck()[i] == c);
}

/// The 52 cards, suit by suit from diamonds to spades, each suit from three to
/// two.
pub fn create_deck() -> (r: Vec<Card>)
    ensures
        r@ == full_deck(),
{
    let mut deck: Vec<Card> = Vec::with_capacity(52);
    let mut suit: usize = 0;
    while suit < 4
        invariant
            suit <= 4,
            deck@ == full_deck().take(13 * suit),
        decreases 4 - suit,
    {
        let mut rank: usize = 0;
        while rank < 13
            invariant
                suit < 4,
                rank <= 13,
                deck@ == full_deck().take(13 * suit + rank),
            decreases 13 - rank,
        {
            let c = Card::new(Rank::nth(rank), Suit::nth(suit));
            deck.push(c);
            proof {
                let i = 13 * suit + rank;
                assert(i % 13 == rank as int);
                assert(i / 13 == suit as int);
                assert(full_deck()[i] == c);
                assert(deck@ =~= full_deck().take(i + 1));
            }
            rank += 1;
        }
        suit += 1;
    }
    assert(full_deck().take(52) =~= full_deck());
    deck
}

/// `SliceRandom::shuffle` of the `rand` crate, with the generator of the
/// current thread: the same cards in some order. Which order is left to chance.
#[verifier::external_body]
pub fn shuffle(deck: &mut Vec<Card>)
    ensures
        final(deck)@.to_multiset() == old(deck)@.to_multiset(),
{
    deck.shuffle(&mut rand::thread_rng());
}

/// Puts the cards in the order of a hand.
pub fn sort_cards(cards: &mut Vec<Card>)
    ensures
        final(cards)@ == sorted_cards(old(cards)@),
{
    let ghost before = cards@;
    let mut out: Vec<Card> = Vec::new();
    let mut i: usize = 0;
    assert(before.take(0) =~= Seq::<Card>::empty());
    while i < cards.len()
        invariant
            i <= cards.len(),
            cards@ == before,
            sorted_by(out@, card_leq()),
            out@.to_multiset() == before.take(i as int).to_multiset(),
        decreases cards.len() - i,
    {
        let c = cards[i];
        let mut at: usize = 0;
        while at < out.len() && key_of(&out[at]) <= key_of(&c)
            invariant
                at <= out.len(),
                forall|k: int| 0 <= k < at ==> (#[trigger] out@[k]).key() <= c.key(),
            decreases out.len() - at,
        {
            at += 1;
        }
        proof {
            lemma_card_order_total();
            sorting::lemma_insert_sorted(out@, at as int, c, card_leq());
            broadcast use group_to_multiset_ensures;

            assert(before.take(i + 1) =~= before.take(i as int).push(c));
        }
        out.insert(at, c);
        i += 1;
    }
    proof {
        assert(before.take(before.len() as int) =~= before);
        lemma_card_order_total();
        sorting::lemma_sorted_is_sort(out@, before, card_leq());
    }
    *cards = out;
}

/// The place of the card in a hand's order.
pub fn key_of(c: &Card) -> (r: usize)
    ensures
        r == c.key(),
{
    c.rank_index() * 4 + c.suit_index()
}

/// Two different cards have different ids.
pub proof fn law_card_id_injective(a: Card, b: Card)
    requires
        a.id() == b.id(),
    ensures
        a == b,
{
    reveal_strlit("3");
    reveal_strlit("4");
    reveal_strlit("5");
    reveal_strlit("6");
    reveal_strlit("7");
    reveal_strlit("8");
    reveal_strlit("9");
    reveal_strlit("10");
    reveal_strlit("J");
    reveal_strlit("Q");
    reveal_strlit("K");
    reveal_strlit("A");
    reveal_strlit("2");
    assert(a.rank.text().len() > 0 && b.rank.text().len() > 0);
    assert(a.id()[0] == a.rank.text()[0]);
    assert(b.id()[0] == b.rank.text()[0]);
    assert(a.rank == b.rank);
    reveal_strlit(":");
    reveal_strlit("diamonds");
    reveal_strlit("clubs");
    reveal_strlit("hearts");
    reveal_strlit("spades");
    let at = a.rank.text().len() as int + 1;
    assert(a.id()[at] == a.suit.word()[0]);
    assert(b.id()[at] == b.suit.word()[0]);
}

/// The labels of the cards.
pub fn labels(cards: &Vec<Card>) -> (r: Vec<String>)
    ensures
        text::texts(r@) == card_texts(cards@),
{
    let mut out: Vec<String> = Vec::new();
    let mut i: usize = 0;
    while i < cards.len()
        invariant
            i <= cards.len(),
            out.len() == i,
            forall|k: int| 0 <= k < i ==> #[trigger] out@[k]@ == cards@[k].text(),
        decreases cards.len() - i,
    {
        out.push(cards[i].label());
        i += 1;
    }
    assert(text::texts(out@) =~= card_texts(cards@));
    out
}

} // verus!
