//! The deck: the 52 distinct (rank, suit) cards in a random order, drawn
//! from the top (the end of the sequence).

use vstd::arithmetic::div_mod::{lemma_fundamental_div_mod, lemma_fundamental_div_mod_converse};
use vstd::prelude::*;

use rand::seq::SliceRandom;
use rand::thread_rng;

use crate::card::{Card, Rank, Suit};

verus! {

/// The rank laid out at a given index when the 52 cards are enumerated.
pub open spec fn rank_at(i: int) -> Rank {
    if i == 0 {
        Rank::Two
    } else if i == 1 {
        Rank::Three
    } else if i == 2 {
        Rank::Four
    } else if i == 3 {
        Rank::Five
    } else if i == 4 {
        Rank::Six
    } else if i == 5 {
        Rank::Seven
    } else if i == 6 {
        Rank::Eight
    } else if i == 7 {
        Rank::Nine
    } else if i == 8 {
        Rank::Ten
    } else if i == 9 {
        Rank::Jack
    } else if i == 10 {
        Rank::Queen
    } else if i == 11 {
        Rank::King
    } else {
        Rank::Ace
    }
}

/// The suit laid out at a given index.
pub open spec fn suit_at(i: int) -> Suit {
    if i == 0 {
        Suit::Spade
    } else if i == 1 {
        Suit::Heart
    } else if i == 2 {
        Suit::Diamond
    } else {
        Suit::Club
    }
}

/// The index a rank occupies in the enumeration; inverse of `rank_at`.
pub open spec fn rank_index(rank: Rank) -> int {
    match rank {
        Rank::Two => 0,
        Rank::Three => 1,
        Rank::Four => 2,
        Rank::Five => 3,
        Rank::Six => 4,
        Rank::Seven => 5,
        Rank::Eight => 6,
        Rank::Nine => 7,
        Rank::Ten => 8,
        Rank::Jack => 9,
        Rank::Queen => 10,
        Rank::King => 11,
        Rank::Ace => 12,
    }
}

/// The index a suit occupies in the enumeration; inverse of `suit_at`.
pub open spec fn suit_index(suit: Suit) -> int {
    match suit {
        Suit::Spade => 0,
        Suit::Heart => 1,
        Suit::Diamond => 2,
        Suit::Club => 3,
    }
}

/// The sequence holds the given combination as a face-up card.
pub open spec fn contains_card(s: Seq<Card>, rank: Rank, suit: Suit) -> bool {
    s.contains(Card { rank: rank, suit: suit, hidden: false })
}

/// No two cards in the sequence agree on both rank and suit.
pub open spec fn distinct_cards(s: Seq<Card>) -> bool {
    forall|i: int, j: int|
        0 <= i < j < s.len() ==> !(s[i].rank == s[j].rank && s[i].suit == s[j].suit)
}

/// Every card in the sequence is face up.
pub open spec fn all_revealed(s: Seq<Card>) -> bool {
    forall|i: int| 0 <= i < s.len() ==> !s[i].hidden
}

/// An ordered pile of cards; drawing removes the card at the end.
#[derive(Debug, PartialEq)]
pub struct Deck {
    cards: Vec<Card>,
}

impl View for Deck {
    type V = Seq<Card>;

    closed spec fn view(&self) -> Seq<Card> {
        self.cards@
    }
}

/// Relies on rand's `SliceRandom::shuffle` (a Fisher-Yates shuffle of the
/// slice, in place): afterwards the vector holds exactly the cards it held
/// before, permuted.
#[verifier::external_body]
fn shuffle_cards(cards: &mut Vec<Card>)
    ensures
        final(cards)@.len() == old(cards)@.len(),
        final(cards)@.to_multiset() == old(cards)@.to_multiset(),
{
    let mut rng = thread_rng();
    cards.shuffle(&mut rng);
}

impl Deck {
    /// A deck with no cards, the state before any round is started.
    pub fn empty() -> (d: Deck)
        ensures
            d@ == Seq::<Card>::empty(),
    {
        Deck { cards: Vec::new() }
    }

    /// Read-only access to the remaining cards, top of the deck last.
    pub fn cards(&self) -> (r: &Vec<Card>)
        ensures
            r@ == self@,
    {
        &self.cards
    }

    /// Replace the contents with the full set of 52 distinct cards — exactly
    /// one of every (rank, suit) combination, all face up — freshly and
    /// independently permuted at random.
    pub fn shuffle(&mut self)
        ensures
            final(self)@.len() == 52,
            distinct_cards(final(self)@),
            all_revealed(final(self)@),
            forall|rank: Rank, suit: Suit| #[trigger] contains_card(final(self)@, rank, suit),
    {
        let mut cards: Vec<Card> = Vec::new();
        let mut r: usize = 0;
        while r < 13
            invariant
                r <= 13,
                cards@.len() == 4 * r,
                forall|k: int|
                    0 <= k < cards@.len() ==> cards@[k] == (Card {
                        rank: rank_at(k / 4),
                        suit: suit_at(k % 4),
                        hidden: false,
                    }),
            decreases 13 - r,
        {
            let mut s: usize = 0;
            while s < 4
                invariant
                    r < 13,
                    s <= 4,
                    cards@.len() == 4 * r + s,
                    forall|k: int|
                        0 <= k < cards@.len() ==> cards@[k] == (Card {
                            rank: rank_at(k / 4),
                            suit: suit_at(k % 4),
                            hidden: false,
                        }),
                decreases 4 - s,
            {
                let card = Card { rank: rank_from_index(r), suit: suit_from_index(s), hidden: false };
                proof {
                    lemma_fundamental_div_mod_converse(4 * r + s, 4, r as int, s as int);
                }
                cards.push(card);
                s = s + 1;
            }
            r = r + 1;
        }
        proof {
            lemma_enumerated_deck_distinct(cards@);
            lemma_enumerated_deck_complete(cards@);
        }
        let ghost before = cards@;
        shuffle_cards(&mut cards);
        proof {
            lemma_permutation_keeps_distinct(before, cards@);
            lemma_permutation_keeps_members(before, cards@);
        }
        self.cards = cards;
    }

    /// Remove and return the top card. Callers must never draw from an empty
    /// deck; a single round draws far fewer than the 52 available cards.
    pub fn next_card(&mut self) -> (c: Card)
        requires
            old(self)@.len() > 0,
        ensures
            c == old(self)@.last(),
            final(self)@ == old(self)@.drop_last(),
    {
        let c = self.cards.pop();
        c.unwrap()
    }
}

/// Exec counterpart of `rank_at`.
fn rank_from_index(i: usize) -> (r: Rank)
    requires
        i < 13,
    ensures
        r == rank_at(i as int),
{
    if i == 0 {
        Rank::Two
    } else if i == 1 {
        Rank::Three
    } else if i == 2 {
        Rank::Four
    } else if i == 3 {
        Rank::Five
    } else if i == 4 {
        Rank::Six
    } else if i == 5 {
        Rank::Seven
    } else if i == 6 {
        Rank::Eight
    } else if i == 7 {
        Rank::Nine
    } else if i == 8 {
        Rank::Ten
    } else if i == 9 {
        Rank::Jack
    } else if i == 10 {
        Rank::Queen
    } else if i == 11 {
        Rank::King
    } else {
        Rank::Ace
    }
}

/// Exec counterpart of `suit_at`.
fn suit_from_index(i: usize) -> (r: Suit)
    requires
        i < 4,
    ensures
        r == suit_at(i as int),
{
    if i == 0 {
        Suit::Spade
    } else if i == 1 {
        Suit::Heart
    } else if i == 2 {
        Suit::Diamond
    } else {
        Suit::Club
    }
}

/// The enumerated 52-card layout holds 52 pairwise distinct, face-up cards:
/// distinct indices differ in rank index or suit index, and the two layout
/// functions are injective on their ranges.
proof fn lemma_enumerated_deck_distinct(s: Seq<Card>)
    requires
        s.len() == 52,
        forall|k: int|
            0 <= k < 52 ==> s[k] == (Card {
                rank: rank_at(k / 4),
                suit: suit_at(k % 4),
                hidden: false,
            }),
    ensures
        s.no_duplicates(),
        distinct_cards(s),
        all_revealed(s),
{
    assert forall|i: int, j: int|
        0 <= i < j < 52 implies !(s[i].rank == s[j].rank && s[i].suit == s[j].suit) by {
        lemma_fundamental_div_mod(i, 4);
        lemma_fundamental_div_mod(j, 4);
        if s[i].rank == s[j].rank && s[i].suit == s[j].suit {
            assert(rank_at(i / 4) == rank_at(j / 4));
            assert(suit_at(i % 4) == suit_at(j % 4));
            assert(0 <= i % 4 < 4 && 0 <= j % 4 < 4);
            assert(0 <= i / 4 < 13 && 0 <= j / 4 < 13);
            assert(i / 4 == j / 4);
            assert(i % 4 == j % 4);
            assert(i == j);
        }
    }
}

/// The enumerated 52-card layout holds every (rank, suit) combination: the
/// combination's card stands at the index built from the two layout indices.
proof fn lemma_enumerated_deck_complete(s: Seq<Card>)
    requires
        s.len() == 52,
        forall|k: int|
            0 <= k < 52 ==> s[k] == (Card {
                rank: rank_at(k / 4),
                suit: suit_at(k % 4),
                hidden: false,
            }),
    ensures
        forall|rank: Rank, suit: Suit| #[trigger] contains_card(s, rank, suit),
{
    assert forall|rank: Rank, suit: Suit| #[trigger] contains_card(s, rank, suit) by {
        let i = 4 * rank_index(rank) + suit_index(suit);
        lemma_fundamental_div_mod_converse(i, 4, rank_index(rank), suit_index(suit));
        assert(rank_at(rank_index(rank)) == rank);
        assert(suit_at(suit_index(suit)) == suit);
        assert(s[i] == (Card { rank: rank, suit: suit, hidden: false }));
        assert(s.contains(s[i]));
    }
}

/// A permutation keeps every member: whatever combination the cards held
/// before the shuffle, they hold after it.
proof fn lemma_permutation_keeps_members(a: Seq<Card>, b: Seq<Card>)
    requires
        a.to_multiset() == b.to_multiset(),
        forall|rank: Rank, suit: Suit| #[trigger] contains_card(a, rank, suit),
    ensures
        forall|rank: Rank, suit: Suit| #[trigger] contains_card(b, rank, suit),
{
    broadcast use vstd::seq_lib::group_to_multiset_ensures;

    assert forall|rank: Rank, suit: Suit| #[trigger] contains_card(b, rank, suit) by {
        let c = Card { rank: rank, suit: suit, hidden: false };
        assert(contains_card(a, rank, suit));
        assert(a.to_multiset().count(c) > 0);
        assert(b.contains(c));
    }
}

/// Distinctness carries across any reindexing that preserves each card's
/// rank and suit and maps distinct positions to distinct positions; moving
/// cards between the deck and the hands is such a reindexing.
pub proof fn lemma_distinct_by_injection(a: Seq<Card>, b: Seq<Card>, g: spec_fn(int) -> int)
    requires
        distinct_cards(a),
        forall|k: int| 0 <= k < b.len() ==> 0 <= #[trigger] g(k) < a.len(),
        forall|k: int|
            0 <= k < b.len() ==> b[k].rank == a[#[trigger] g(k)].rank && b[k].suit == a[g(k)].suit,
        forall|k1: int, k2: int|
            0 <= k1 < k2 < b.len() ==> #[trigger] g(k1) != #[trigger] g(k2),
    ensures
        distinct_cards(b),
{
    assert forall|i: int, j: int|
        0 <= i < j < b.len() implies !(b[i].rank == b[j].rank && b[i].suit == b[j].suit) by {
        let gi = g(i);
        let gj = g(j);
        assert(gi != gj);
        if gi < gj {
            assert(!(a[gi].rank == a[gj].rank && a[gi].suit == a[gj].suit));
        } else {
            assert(!(a[gj].rank == a[gi].rank && a[gj].suit == a[gi].suit));
        }
    }
}

/// A permutation of a sequence of pairwise distinct, face-up cards is again
/// pairwise distinct and face up.
proof fn lemma_permutation_keeps_distinct(a: Seq<Card>, b: Seq<Card>)
    requires
        a.to_multiset() == b.to_multiset(),
        a.no_duplicates(),
        all_revealed(a),
    ensures
        b.no_duplicates(),
        all_revealed(b),
        distinct_cards(b),
{
    broadcast use vstd::seq_lib::group_to_multiset_ensures;

    a.lemma_multiset_has_no_duplicates();
    b.lemma_multiset_has_no_duplicates_conv();
    assert forall|i: int| 0 <= i < b.len() implies !b[i].hidden by {
        assert(b.contains(b[i]));
        assert(b.to_multiset().count(b[i]) > 0);
        assert(a.contains(b[i]));
        let j = choose|j: int| 0 <= j < a.len() && a[j] == b[i];
        assert(!a[j].hidden);
    }
    assert forall|i: int, j: int|
        0 <= i < j < b.len() implies !(b[i].rank == b[j].rank && b[i].suit == b[j].suit) by {
        if b[i].rank == b[j].rank && b[i].suit == b[j].suit {
            assert(!b[i].hidden && !b[j].hidden);
            assert(b[i] == b[j]);
        }
    }
}

} // verus!
