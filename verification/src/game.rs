//! The round state machine: owns the deck and the two hands, drives all
//! mutation through four events (start, draw, stay, tick), applies the
//! dealer's policy, and computes the outcome.

use vstd::prelude::*;

use crate::card::Card;
use crate::deck::{all_revealed, distinct_cards, lemma_distinct_by_injection, Deck};
use crate::hand::{
    hand_score, has_hidden_card, is_blackjack, lemma_rank_seq_bounds, lemma_score_ge_len,
    lemma_two_cards_le_21, ranks_of, Hand,
};

verus! {

/// How a finished round came out, from the player's side.
#[derive(Debug, Copy, Clone, PartialEq, Eq, Structural)]
pub enum GameResult {
    Won,
    Lost,
    Push,
}

/// Where the player stands in the round. `Draw` is the initial state, in
/// which the player may still act; the other three end the player's turn.
#[derive(Debug, Copy, Clone, PartialEq, Eq, Structural)]
pub enum PlayerStatus {
    Bust,
    Draw,
    Blackjack,
    Stand,
}

/// The outcome once both sides stand: a blackjack beats any other 21, then
/// the higher score wins, and equal standings push.
pub open spec fn outcome_of(p: Seq<Card>, d: Seq<Card>) -> GameResult {
    if is_blackjack(p) && is_blackjack(d) {
        GameResult::Push
    } else if is_blackjack(d) || hand_score(p) < hand_score(d) {
        GameResult::Lost
    } else if is_blackjack(p) || hand_score(p) > hand_score(d) {
        GameResult::Won
    } else {
        GameResult::Push
    }
}

/// One table: the deck, the two hands, and the round's control state.
#[derive(Debug, PartialEq)]
pub struct App {
    pub deck: Deck,
    pub game_running: bool,
    pub player_hand: Hand,
    pub dealer_hand: Hand,
    pub player_status: PlayerStatus,
    pub result: Option<GameResult>,
}

/// Everything but the result is unchanged.
pub open spec fn same_but_result(pre: App, post: App) -> bool {
    &&& post.deck == pre.deck
    &&& post.player_hand == pre.player_hand
    &&& post.dealer_hand == pre.dealer_hand
    &&& post.player_status == pre.player_status
    &&& post.game_running == pre.game_running
}

/// Everything but the dealer's hand is unchanged.
pub open spec fn same_but_dealer(pre: App, post: App) -> bool {
    &&& post.deck == pre.deck
    &&& post.player_hand == pre.player_hand
    &&& post.player_status == pre.player_status
    &&& post.result == pre.result
    &&& post.game_running == pre.game_running
}

/// Everything but the dealer's hand and the deck is unchanged.
pub open spec fn same_but_dealer_and_deck(pre: App, post: App) -> bool {
    &&& post.player_hand == pre.player_hand
    &&& post.player_status == pre.player_status
    &&& post.result == pre.result
    &&& post.game_running == pre.game_running
}

/// What one tick does. Only every fourth counter value acts; a qualifying
/// tick resolves a bust at once, and otherwise, once the player's turn is
/// over, first reveals the hole card, then draws the dealer to 17, then
/// compares the standings.
pub open spec fn tick_rel(pre: App, post: App, counter: u64) -> bool {
    let p = pre.player_hand@;
    let d = pre.dealer_hand@;
    if counter % 4 != 0 {
        post == pre
    } else if hand_score(p) > 21 {
        &&& post.result == Some(GameResult::Lost)
        &&& same_but_result(pre, post)
    } else if hand_score(d) > 21 {
        &&& post.result == Some(GameResult::Won)
        &&& same_but_result(pre, post)
    } else if pre.player_status is Draw {
        post == pre
    } else if has_hidden_card(d) {
        &&& post.dealer_hand@ == d.update(
            0,
            (Card { rank: d[0].rank, suit: d[0].suit, hidden: false }),
        )
        &&& same_but_dealer(pre, post)
    } else if hand_score(d) < 17 {
        &&& post.dealer_hand@ == d.push(pre.deck@.last())
        &&& post.deck@ == pre.deck@.drop_last()
        &&& same_but_dealer_and_deck(pre, post)
    } else {
        &&& post.result == Some(outcome_of(p, d))
        &&& same_but_result(pre, post)
    }
}

impl App {
    /// All cards on the table, in one sequence: the deck, then the player's
    /// hand, then the dealer's.
    pub open spec fn all_cards(self) -> Seq<Card> {
        self.deck@ + self.player_hand@ + self.dealer_hand@
    }

    /// Internal consistency of a table: hand sizes stay within what the
    /// rules of play allow, a running round accounts for all 52 cards with
    /// no duplicate card identity anywhere, and a player still free to act
    /// has not busted.
    pub open spec fn wf(self) -> bool {
        &&& self.game_running ==> self.deck@.len() + self.player_hand@.len()
            + self.dealer_hand@.len() == 52
        &&& self.game_running ==> distinct_cards(self.all_cards())
        &&& self.player_hand@.len() <= 22
        &&& self.dealer_hand@.len() <= 17
        &&& self.player_status is Draw ==> hand_score(self.player_hand@) <= 21
    }

    /// Whether a tick with this counter makes the dealer draw a card.
    pub open spec fn tick_draws_card(self, counter: u64) -> bool {
        &&& counter % 4 == 0
        &&& hand_score(self.player_hand@) <= 21
        &&& hand_score(self.dealer_hand@) <= 21
        &&& !(self.player_status is Draw)
        &&& !has_hidden_card(self.dealer_hand@)
        &&& hand_score(self.dealer_hand@) < 17
    }

    /// A fresh table: no cards anywhere, no round running.
    pub fn new() -> (app: App)
        ensures
            app.wf(),
            !app.game_running,
            app.deck@ == Seq::<Card>::empty(),
            app.player_hand@ == Seq::<Card>::empty(),
            app.dealer_hand@ == Seq::<Card>::empty(),
            app.player_status is Draw,
            app.result is None,
    {
        App {
            deck: Deck::empty(),
            player_hand: Hand { cards: Vec::new() },
            dealer_hand: Hand { cards: Vec::new() },
            player_status: PlayerStatus::Draw,
            game_running: false,
            result: None,
        }
    }

    /// Begin (or restart) a round: shuffle a fresh deck, deal two cards to
    /// the player and two to the dealer, conceal the dealer's first card,
    /// and grant `Blackjack` status on an opening 21.
    pub fn on_start(&mut self)
        ensures
            final(self).wf(),
            final(self).game_running,
            final(self).result is None,
            final(self).player_hand@.len() == 2,
            final(self).dealer_hand@.len() == 2,
            final(self).deck@.len() == 48,
            distinct_cards(final(self).deck@),
            all_revealed(final(self).deck@),
            !final(self).player_hand@[0].hidden,
            !final(self).player_hand@[1].hidden,
            final(self).dealer_hand@[0].hidden,
            !final(self).dealer_hand@[1].hidden,
            final(self).player_status == (if is_blackjack(final(self).player_hand@) {
                PlayerStatus::Blackjack
            } else {
                PlayerStatus::Draw
            }),
    {
        self.game_running = true;
        self.deck.shuffle();
        let ghost s = self.deck@;
        self.result = None;
        let c1 = self.deck.next_card();
        let c2 = self.deck.next_card();
        let mut player = Hand { cards: Vec::new() };
        player.add(c1);
        player.add(c2);
        self.player_hand = player;
        let c3 = self.deck.next_card();
        let c4 = self.deck.next_card();
        let mut dealer = Hand { cards: Vec::new() };
        dealer.add(c3);
        dealer.add(c4);
        self.dealer_hand = dealer;
        self.player_status = PlayerStatus::Draw;
        self.dealer_hand.conceal_first();
        proof {
            lemma_two_cards_le_21(self.player_hand@);
            lemma_rank_seq_bounds(ranks_of(self.player_hand@));
            assert(self.deck@ =~= s.subrange(0, 48));
            let b = self.all_cards();
            assert(b.len() == 52);
            let g = (|k: int|
                if k < 48 {
                    k
                } else if k == 48 {
                    51int
                } else if k == 49 {
                    50int
                } else if k == 50 {
                    49int
                } else {
                    48int
                });
            assert forall|k: int| 0 <= k < b.len() implies b[k].rank == s[#[trigger] g(k)].rank
                && b[k].suit == s[g(k)].suit by {
                if k < 48 {
                    assert(b[k] == self.deck@[k]);
                } else if k == 48 || k == 49 {
                    assert(b[k] == self.player_hand@[k - 48]);
                } else {
                    assert(b[k] == self.dealer_hand@[k - 50]);
                }
            }
            lemma_distinct_by_injection(s, b, g);
        }
        if self.player_hand.has_blackjack() {
            self.player_status = PlayerStatus::Blackjack;
        }
    }

    /// The player hits: permitted only while the status is `Draw`; a bust
    /// ends the player's turn. Out of turn the call is a silent no-op.
    pub fn on_draw(&mut self)
        requires
            old(self).wf(),
            old(self).player_status is Draw ==> old(self).deck@.len() > 0,
        ensures
            final(self).wf(),
            !(old(self).player_status is Draw) ==> *final(self) == *old(self),
            old(self).player_status is Draw ==> {
                &&& final(self).player_hand@ == old(self).player_hand@.push(old(self).deck@.last())
                &&& final(self).deck@ == old(self).deck@.drop_last()
                &&& final(self).player_status == (if hand_score(final(self).player_hand@) > 21 {
                    PlayerStatus::Bust
                } else {
                    PlayerStatus::Draw
                })
                &&& final(self).dealer_hand == old(self).dealer_hand
                &&& final(self).result == old(self).result
                &&& final(self).game_running == old(self).game_running
            },
    {
        if self.player_status == PlayerStatus::Draw {
            proof {
                lemma_score_ge_len(self.player_hand@);
            }
            let ghost a = self.all_cards();
            let ghost dl: int = self.deck@.len() as int;
            let ghost pl: int = self.player_hand@.len() as int;
            let card = self.deck.next_card();
            self.player_hand.add(card);
            proof {
                lemma_rank_seq_bounds(ranks_of(self.player_hand@));
                if self.game_running {
                    let b = self.all_cards();
                    let g = (|k: int|
                        if k < dl - 1 {
                            k
                        } else if k < dl - 1 + pl {
                            k + 1
                        } else if k == dl - 1 + pl {
                            dl - 1
                        } else {
                            k
                        });
                    assert forall|k: int|
                        0 <= k < b.len() implies b[k].rank == a[#[trigger] g(k)].rank && b[k].suit
                        == a[g(k)].suit by {
                        if k < dl - 1 {
                            assert(b[k] == self.deck@[k]);
                        } else if k < dl - 1 + pl {
                            assert(b[k] == self.player_hand@[k - (dl - 1)]);
                        } else if k == dl - 1 + pl {
                            assert(b[k] == card);
                        } else {
                            assert(b[k] == self.dealer_hand@[k - dl - pl]);
                        }
                    }
                    lemma_distinct_by_injection(a, b, g);
                }
            }
            if self.player_hand.is_bust() {
                self.player_status = PlayerStatus::Bust;
            }
        }
    }

    /// The player stands: permitted only while the status is `Draw`. Out of
    /// turn the call is a silent no-op.
    pub fn on_stay(&mut self)
        ensures
            old(self).wf() ==> final(self).wf(),
            old(self).player_status is Draw ==> final(self).player_status is Stand,
            !(old(self).player_status is Draw) ==> final(self).player_status == old(
                self,
            ).player_status,
            final(self).deck == old(self).deck,
            final(self).player_hand == old(self).player_hand,
            final(self).dealer_hand == old(self).dealer_hand,
            final(self).result == old(self).result,
            final(self).game_running == old(self).game_running,
    {
        if self.player_status == PlayerStatus::Draw {
            self.player_status = PlayerStatus::Stand;
        }
    }

    /// The periodic heartbeat; the caller hands in a counter it increments
    /// once per frame, and the machine acts only on every fourth value.
    pub fn on_tick(&mut self, counter: u64)
        requires
            old(self).wf(),
            old(self).tick_draws_card(counter) ==> old(self).deck@.len() > 0,
        ensures
            final(self).wf(),
            tick_rel(*old(self), *final(self), counter),
    {
        if App::delay(counter) {
            proof {
                lemma_rank_seq_bounds(ranks_of(self.player_hand@));
                lemma_rank_seq_bounds(ranks_of(self.dealer_hand@));
            }
            let ghost a = self.all_cards();
            let ghost dl: int = self.deck@.len() as int;
            let ghost pl: int = self.player_hand@.len() as int;
            let ghost dr: int = self.dealer_hand@.len() as int;
            if self.player_hand.is_bust() {
                self.result = Some(GameResult::Lost);
            } else if self.dealer_hand.is_bust() {
                self.result = Some(GameResult::Won);
            } else if !(self.player_status == PlayerStatus::Draw) {
                let player_score = self.player_hand.score();
                let dealer_score = self.dealer_hand.score();
                if self.dealer_hand.has_hidden() {
                    self.dealer_hand.reveal_first();
                    proof {
                        if self.game_running {
                            let b = self.all_cards();
                            let g = (|k: int| k);
                            assert forall|k: int|
                                0 <= k < b.len() implies b[k].rank == a[#[trigger] g(k)].rank
                                && b[k].suit == a[g(k)].suit by {
                                if k < dl + pl {
                                    assert(b[k] == a[k]);
                                } else {
                                    assert(b[k] == self.dealer_hand@[k - dl - pl]);
                                }
                            }
                            lemma_distinct_by_injection(a, b, g);
                        }
                    }
                } else if dealer_score < 17 {
                    proof {
                        lemma_score_ge_len(self.dealer_hand@);
                    }
                    let new_card = self.deck.next_card();
                    self.dealer_hand.add(new_card);
                    proof {
                        if self.game_running {
                            let b = self.all_cards();
                            let g = (|k: int|
                                if k < dl - 1 {
                                    k
                                } else if k == dl - 1 + pl + dr {
                                    dl - 1
                                } else {
                                    k + 1
                                });
                            assert forall|k: int|
                                0 <= k < b.len() implies b[k].rank == a[#[trigger] g(k)].rank
                                && b[k].suit == a[g(k)].suit by {
                                if k < dl - 1 {
                                    assert(b[k] == self.deck@[k]);
                                } else if k == dl - 1 + pl + dr {
                                    assert(b[k] == new_card);
                                } else if k < dl - 1 + pl {
                                    assert(b[k] == self.player_hand@[k - (dl - 1)]);
                                } else {
                                    assert(b[k] == self.dealer_hand@[k - (dl - 1) - pl]);
                                }
                            }
                            lemma_distinct_by_injection(a, b, g);
                        }
                    }
                } else {
                    if self.player_hand.has_blackjack() && self.dealer_hand.has_blackjack() {
                        self.result = Some(GameResult::Push);
                    } else if self.dealer_hand.has_blackjack() || player_score < dealer_score {
                        self.result = Some(GameResult::Lost);
                    } else if self.player_hand.has_blackjack() || player_score > dealer_score {
                        self.result = Some(GameResult::Won);
                    } else {
                        self.result = Some(GameResult::Push);
                    }
                }
            }
        }
    }

    /// The pacing gate: only every fourth counter value lets a tick act.
    fn delay(counter: u64) -> (r: bool)
        ensures
            r == (counter % 4 == 0),
    {
        counter % 4 == 0
    }
}

} // verus!
