//! Hands: an ordered collection of cards with derived score and status
//! queries. Scoring sums the point values of all cards and then demotes
//! Aces from 11 to 1, one at a time, only while the total busts.

use vstd::prelude::*;

use crate::card::{card_points, Card, Rank};

verus! {

/// The ranks of a sequence of cards, in order.
pub open spec fn ranks_of(s: Seq<Card>) -> Seq<Rank> {
    s.map_values(|c: Card| c.rank)
}

/// Sum of the point values of a rank sequence, with every Ace counted as 11.
pub open spec fn naive_sum(r: Seq<Rank>) -> int
    decreases r.len(),
{
    if r.len() == 0 {
        0
    } else {
        naive_sum(r.drop_last()) + card_points(r.last())
    }
}

/// How many Aces a rank sequence holds.
pub open spec fn num_aces(r: Seq<Rank>) -> int
    decreases r.len(),
{
    if r.len() == 0 {
        0
    } else {
        num_aces(r.drop_last()) + if r.last() is Ace {
            1int
        } else {
            0int
        }
    }
}

/// Demote Aces (subtract 10 each) while the total busts and an undemoted Ace
/// remains.
pub open spec fn adjust(sum: int, aces: int) -> int
    decreases aces,
{
    if sum > 21 && aces > 0 {
        adjust(sum - 10, aces - 1)
    } else {
        sum
    }
}

/// The blackjack score of a sequence of cards.
pub open spec fn hand_score(s: Seq<Card>) -> int {
    adjust(naive_sum(ranks_of(s)), num_aces(ranks_of(s)))
}

/// A natural blackjack: exactly two cards scoring 21.
pub open spec fn is_blackjack(s: Seq<Card>) -> bool {
    s.len() == 2 && hand_score(s) == 21
}

/// A busted hand: score above 21.
pub open spec fn is_busted(s: Seq<Card>) -> bool {
    hand_score(s) > 21
}

/// Whether any card in the sequence is concealed.
pub open spec fn has_hidden_card(s: Seq<Card>) -> bool {
    exists|i: int| 0 <= i < s.len() && s[i].hidden
}

/// The cards held by one party, in the order they were dealt.
#[derive(Debug, PartialEq)]
pub struct Hand {
    pub cards: Vec<Card>,
}

impl View for Hand {
    type V = Seq<Card>;

    open spec fn view(&self) -> Seq<Card> {
        self.cards@
    }
}

impl Hand {
    /// Append a card; no validation, since all cards of a round come from one
    /// freshly shuffled deck.
    pub fn add(&mut self, card: Card)
        ensures
            final(self)@ == old(self)@.push(card),
    {
        self.cards.push(card);
    }

    /// The hand's score: the point total with each Ace demoted from 11 to 1
    /// only when needed to avoid a bust.
    pub fn score(&self) -> (r: u8)
        requires
            naive_sum(ranks_of(self@)) <= u8::MAX,
        ensures
            r == hand_score(self@),
    {
        let ghost rs = ranks_of(self@);
        let n = self.cards.len();
        let mut sum: u8 = 0;
        let mut aces: usize = 0;
        let mut i: usize = 0;
        while i < n
            invariant
                i <= n,
                n == self.cards.len(),
                rs == ranks_of(self@),
                naive_sum(rs) <= u8::MAX,
                sum == naive_sum(rs.take(i as int)),
                aces == num_aces(rs.take(i as int)),
                aces <= i,
            decreases n - i,
        {
            proof {
                lemma_take_step(rs, i as int);
                lemma_take_le(rs, i as int + 1);
            }
            let c = self.cards[i];
            sum = sum + c.score();
            if matches!(c.rank, Rank::Ace) {
                aces = aces + 1;
            }
            i = i + 1;
        }
        proof {
            assert(rs.take(n as int) =~= rs);
        }
        while sum > 21 && aces > 0
            invariant
                adjust(sum as int, aces as int) == adjust(naive_sum(rs), num_aces(rs)),
            decreases aces,
        {
            sum = sum - 10;
            aces = aces - 1;
        }
        sum
    }

    /// Exactly two cards and a score of 21.
    pub fn has_blackjack(&self) -> (r: bool)
        ensures
            r == is_blackjack(self@),
    {
        if self.cards.len() == 2 {
            proof {
                lemma_rank_seq_bounds(ranks_of(self@));
            }
            self.score() == 21
        } else {
            false
        }
    }

    /// Score above 21.
    pub fn is_bust(&self) -> (r: bool)
        requires
            naive_sum(ranks_of(self@)) <= u8::MAX,
        ensures
            r == is_busted(self@),
    {
        self.score() > 21
    }

    /// Whether the hand still holds a concealed card.
    pub fn has_hidden(&self) -> (r: bool)
        ensures
            r == has_hidden_card(self@),
    {
        let n = self.cards.len();
        let mut i: usize = 0;
        while i < n
            invariant
                i <= n,
                n == self.cards.len(),
                forall|k: int| 0 <= k < i ==> !self@[k].hidden,
            decreases n - i,
        {
            if self.cards[i].hidden {
                return true;
            }
            i = i + 1;
        }
        false
    }

    /// Mark the first card as the concealed hole card.
    pub fn conceal_first(&mut self)
        requires
            old(self)@.len() > 0,
        ensures
            final(self)@ == old(self)@.update(
                0,
                (Card { rank: old(self)@[0].rank, suit: old(self)@[0].suit, hidden: true }),
            ),
    {
        let c = self.cards[0];
        self.cards[0] = Card { rank: c.rank, suit: c.suit, hidden: true };
    }

    /// Reveal the hole card.
    pub fn reveal_first(&mut self)
        requires
            old(self)@.len() > 0,
        ensures
            final(self)@ == old(self)@.update(
                0,
                (Card { rank: old(self)@[0].rank, suit: old(self)@[0].suit, hidden: false }),
            ),
    {
        let c = self.cards[0];
        self.cards[0] = Card { rank: c.rank, suit: c.suit, hidden: false };
    }
}

/// Bounds tying a rank sequence's naive sum and Ace count to its length:
/// every card is worth 2 to 11 points, and an Ace is worth 9 more than the
/// minimum.
pub proof fn lemma_rank_seq_bounds(r: Seq<Rank>)
    ensures
        0 <= num_aces(r) <= r.len(),
        2 * r.len() + 9 * num_aces(r) <= naive_sum(r) <= 11 * r.len(),
    decreases r.len(),
{
    if r.len() > 0 {
        lemma_rank_seq_bounds(r.drop_last());
    }
}

proof fn lemma_take_step(r: Seq<Rank>, i: int)
    requires
        0 <= i < r.len(),
    ensures
        naive_sum(r.take(i + 1)) == naive_sum(r.take(i)) + card_points(r[i]),
        num_aces(r.take(i + 1)) == num_aces(r.take(i)) + if r[i] is Ace {
            1int
        } else {
            0int
        },
{
    assert(r.take(i + 1).drop_last() =~= r.take(i));
    assert(r.take(i + 1).last() == r[i]);
}

proof fn lemma_take_le(r: Seq<Rank>, i: int)
    requires
        0 <= i <= r.len(),
    ensures
        naive_sum(r.take(i)) <= naive_sum(r),
    decreases r.len() - i,
{
    if i == r.len() {
        assert(r.take(i) =~= r);
    } else {
        lemma_take_step(r, i);
        lemma_take_le(r, i + 1);
    }
}

/// The total after demoting `k` Aces from a naive sum.
pub open spec fn demoted_total(sum: int, k: int) -> int {
    sum - 10 * k
}

/// How Ace demotion behaves: the result is the naive sum less 10 for each of
/// some number of demoted Aces; nothing is demoted when the sum does not
/// bust; every achievable total at or under 21 is at most the result; and a
/// result that still busts has every Ace demoted.
pub proof fn lemma_adjust_props(sum: int, aces: int)
    requires
        0 <= aces,
    ensures
        adjust(sum, aces) <= sum,
        sum - 10 * aces <= adjust(sum, aces),
        sum <= 21 ==> adjust(sum, aces) == sum,
        adjust(sum, aces) > 21 ==> adjust(sum, aces) == sum - 10 * aces,
        exists|k: int| 0 <= k <= aces && adjust(sum, aces) == #[trigger] demoted_total(sum, k),
        forall|k: int|
            0 <= k <= aces && #[trigger] demoted_total(sum, k) <= 21 ==> demoted_total(sum, k)
                <= adjust(sum, aces) <= 21,
    decreases aces,
{
    if sum > 21 && aces > 0 {
        lemma_adjust_props(sum - 10, aces - 1);
        let k0 = choose|k: int|
            0 <= k <= aces - 1 && adjust(sum - 10, aces - 1) == #[trigger] demoted_total(
                sum - 10,
                k,
            );
        assert(adjust(sum, aces) == demoted_total(sum, k0 + 1));
        assert(0 <= k0 + 1 <= aces && adjust(sum, aces) == demoted_total(sum, k0 + 1));
        assert forall|k: int|
            0 <= k <= aces && #[trigger] demoted_total(sum, k) <= 21 implies demoted_total(sum, k)
            <= adjust(sum, aces) <= 21 by {
            assert(k >= 1);
            assert(demoted_total(sum - 10, k - 1) == demoted_total(sum, k));
        }
    } else {
        assert(adjust(sum, aces) == demoted_total(sum, 0));
    }
}

/// A hand's score never exceeds the naive total, never falls below the total
/// with every Ace demoted, equals the naive total whenever that does not
/// bust, is reachable by demoting some of the Aces, is the largest reachable
/// total not exceeding 21 whenever one exists, and busts only with every Ace
/// demoted: each demotion happens only when needed, and never more than
/// needed.
pub proof fn lemma_score_demotes_minimally(s: Seq<Card>)
    ensures
        hand_score(s) <= naive_sum(ranks_of(s)),
        naive_sum(ranks_of(s)) - 10 * num_aces(ranks_of(s)) <= hand_score(s),
        naive_sum(ranks_of(s)) <= 21 ==> hand_score(s) == naive_sum(ranks_of(s)),
        hand_score(s) > 21 ==> hand_score(s) == naive_sum(ranks_of(s)) - 10 * num_aces(
            ranks_of(s),
        ),
        exists|k: int|
            0 <= k <= num_aces(ranks_of(s)) && hand_score(s) == #[trigger] demoted_total(
                naive_sum(ranks_of(s)),
                k,
            ),
        forall|k: int|
            0 <= k <= num_aces(ranks_of(s)) && #[trigger] demoted_total(naive_sum(ranks_of(s)), k)
                <= 21 ==> demoted_total(naive_sum(ranks_of(s)), k) <= hand_score(s) <= 21,
{
    lemma_rank_seq_bounds(ranks_of(s));
    lemma_adjust_props(naive_sum(ranks_of(s)), num_aces(ranks_of(s)));
}

/// A hand scores at least one point per card: even a demoted Ace is worth 1.
pub proof fn lemma_score_ge_len(s: Seq<Card>)
    ensures
        hand_score(s) >= s.len(),
{
    let r = ranks_of(s);
    lemma_rank_seq_bounds(r);
    lemma_adjust_props(naive_sum(r), num_aces(r));
}

/// Two cards never bust: the worst case, a pair of Aces, demotes to 12.
pub proof fn lemma_two_cards_le_21(s: Seq<Card>)
    requires
        s.len() == 2,
    ensures
        hand_score(s) <= 21,
{
    let r = ranks_of(s);
    let d = r.drop_last();
    assert(d.drop_last() =~= Seq::<Rank>::empty());
    assert(naive_sum(Seq::<Rank>::empty()) == 0);
    assert(num_aces(Seq::<Rank>::empty()) == 0);
    assert(d.last() == r[0]);
    assert(naive_sum(d) == card_points(r[0]));
    assert(num_aces(d) == (if r[0] is Ace { 1int } else { 0int }));
    assert(naive_sum(r) == card_points(r[0]) + card_points(r[1]));
    assert(num_aces(r) == (if r[0] is Ace { 1int } else { 0int }) + (if r[1] is Ace {
        1int
    } else {
        0int
    }));
    if naive_sum(r) > 21 {
        assert(card_points(r[0]) == 11 && card_points(r[1]) == 11);
        assert(r[0] is Ace && r[1] is Ace);
        assert(hand_score(s) == adjust(22, 2));
        assert(adjust(22, 2) == adjust(12, 1));
    }
}

proof fn lemma_sum_remove(r: Seq<Rank>, j: int)
    requires
        0 <= j < r.len(),
    ensures
        naive_sum(r.remove(j)) == naive_sum(r) - card_points(r[j]),
        num_aces(r.remove(j)) == num_aces(r) - if r[j] is Ace {
            1int
        } else {
            0int
        },
    decreases r.len(),
{
    if j == r.len() - 1 {
        assert(r.remove(j) =~= r.drop_last());
    } else {
        assert(r.remove(j).drop_last() =~= r.drop_last().remove(j));
        assert(r.remove(j).last() == r.last());
        lemma_sum_remove(r.drop_last(), j);
    }
}

proof fn lemma_sum_multiset(r1: Seq<Rank>, r2: Seq<Rank>)
    requires
        r1.to_multiset() == r2.to_multiset(),
    ensures
        naive_sum(r1) == naive_sum(r2),
        num_aces(r1) == num_aces(r2),
    decreases r1.len(),
{
    broadcast use vstd::seq_lib::group_to_multiset_ensures;

    if r1.len() == 0 {
        assert(r2.to_multiset().len() == 0);
        assert(r2.len() == 0);
    } else {
        let x = r1.last();
        let last = r1.len() - 1;
        assert(r1[last] == x);
        assert(r1.to_multiset().contains(x)) by {
            assert(r1.contains(x));
        }
        assert(r2.contains(x));
        let j = choose|j: int| 0 <= j < r2.len() && r2[j] == x;
        assert(r1.remove(last).to_multiset() =~= r1.to_multiset().remove(x));
        assert(r2.remove(j).to_multiset() =~= r2.to_multiset().remove(x));
        assert(r1.remove(last) =~= r1.drop_last());
        lemma_sum_remove(r1, last);
        lemma_sum_remove(r2, j);
        lemma_sum_multiset(r1.remove(last), r2.remove(j));
    }
}

/// The score of a hand depends only on which ranks it holds: it is invariant
/// under suits, concealment flags, and the order of the cards.
pub proof fn lemma_score_permutation_insensitive(s1: Seq<Card>, s2: Seq<Card>)
    requires
        ranks_of(s1).to_multiset() == ranks_of(s2).to_multiset(),
    ensures
        hand_score(s1) == hand_score(s2),
{
    lemma_sum_multiset(ranks_of(s1), ranks_of(s2));
}

/// Replacing a card by one of the same rank (as concealing or revealing the
/// hole card does) leaves the rank sequence, and so the score, unchanged.
pub proof fn lemma_ranks_update(s: Seq<Card>, i: int, c: Card)
    requires
        0 <= i < s.len(),
        c.rank == s[i].rank,
    ensures
        ranks_of(s.update(i, c)) == ranks_of(s),
        hand_score(s.update(i, c)) == hand_score(s),
{
    assert(ranks_of(s.update(i, c)) =~= ranks_of(s));
}

} // verus!
