use blackjack::card::{Card, Rank, Suit};
use blackjack::deck::Deck;
use blackjack::game::{App, GameResult, PlayerStatus};
use blackjack::hand::Hand;

fn card(rank: Rank, suit: Suit) -> Card {
    Card { rank, suit, hidden: false }
}

/// A mid-round table with chosen hands; the deck is empty, so these states
/// only drive paths in which the dealer does not draw.
fn table(player: Vec<Card>, dealer: Vec<Card>, status: PlayerStatus) -> App {
    App {
        deck: Deck::empty(),
        game_running: true,
        player_hand: Hand { cards: player },
        dealer_hand: Hand { cards: dealer },
        player_status: status,
        result: None,
    }
}

#[test]
fn new_table_is_idle_and_empty() {
    let app = App::new();
    assert!(!app.game_running);
    assert_eq!(app.deck.cards().len(), 0);
    assert_eq!(app.player_hand.cards.len(), 0);
    assert_eq!(app.dealer_hand.cards.len(), 0);
    assert_eq!(app.player_status, PlayerStatus::Draw);
    assert!(app.result.is_none());
}

#[test]
fn start_deals_two_cards_each_and_conceals_the_hole_card() {
    for _ in 0..20 {
        let mut app = App::new();
        app.on_start();
        assert!(app.game_running);
        assert!(app.result.is_none());
        assert_eq!(app.player_hand.cards.len(), 2);
        assert_eq!(app.dealer_hand.cards.len(), 2);
        assert_eq!(app.deck.cards().len(), 48);
        assert!(!app.player_hand.cards[0].hidden);
        assert!(!app.player_hand.cards[1].hidden);
        assert!(app.dealer_hand.cards[0].hidden);
        assert!(!app.dealer_hand.cards[1].hidden);
        let expected = if app.player_hand.score() == 21 {
            PlayerStatus::Blackjack
        } else {
            PlayerStatus::Draw
        };
        assert_eq!(app.player_status, expected);
    }
}

#[test]
fn start_discards_all_prior_state() {
    let mut app = App::new();
    app.on_start();
    app.on_stay();
    app.on_tick(0);
    app.on_start();
    assert!(app.result.is_none());
    assert_eq!(app.player_hand.cards.len(), 2);
    assert_eq!(app.dealer_hand.cards.len(), 2);
    assert_eq!(app.deck.cards().len(), 48);
}

#[test]
fn a_started_round_accounts_for_all_fifty_two_cards() {
    let mut app = App::new();
    app.on_start();
    let mut all: Vec<Card> = Vec::new();
    all.extend_from_slice(app.deck.cards());
    all.extend_from_slice(&app.player_hand.cards);
    all.extend_from_slice(&app.dealer_hand.cards);
    assert_eq!(all.len(), 52);
    for i in 0..all.len() {
        for j in (i + 1)..all.len() {
            assert!(
                !(all[i].rank == all[j].rank && all[i].suit == all[j].suit),
                "duplicate card across deck and hands"
            );
        }
    }
}

#[test]
fn draw_adds_a_card_while_awaiting_action() {
    for _ in 0..20 {
        let mut app = App::new();
        app.on_start();
        if app.player_status != PlayerStatus::Draw {
            continue;
        }
        app.on_draw();
        assert_eq!(app.player_hand.cards.len(), 3);
        assert_eq!(app.deck.cards().len(), 47);
        if app.player_hand.score() > 21 {
            assert_eq!(app.player_status, PlayerStatus::Bust);
        } else {
            assert_eq!(app.player_status, PlayerStatus::Draw);
        }
    }
}

#[test]
fn draw_is_a_noop_after_standing() {
    let mut app = table(
        vec![card(Rank::Ten, Suit::Spade), card(Rank::Nine, Suit::Heart)],
        vec![card(Rank::Ten, Suit::Club), card(Rank::Seven, Suit::Diamond)],
        PlayerStatus::Stand,
    );
    app.on_draw();
    let expected = table(
        vec![card(Rank::Ten, Suit::Spade), card(Rank::Nine, Suit::Heart)],
        vec![card(Rank::Ten, Suit::Club), card(Rank::Seven, Suit::Diamond)],
        PlayerStatus::Stand,
    );
    assert_eq!(app, expected);
}

#[test]
fn draw_is_a_noop_after_blackjack() {
    let mut app = table(
        vec![card(Rank::Ace, Suit::Spade), card(Rank::King, Suit::Heart)],
        vec![card(Rank::Ten, Suit::Club), card(Rank::Seven, Suit::Diamond)],
        PlayerStatus::Blackjack,
    );
    app.on_draw();
    assert_eq!(app.player_hand.cards.len(), 2);
    assert_eq!(app.player_status, PlayerStatus::Blackjack);
}

#[test]
fn an_opening_blackjack_locks_the_hand() {
    for _ in 0..2000 {
        let mut app = App::new();
        app.on_start();
        if app.player_status == PlayerStatus::Blackjack {
            assert_eq!(app.player_hand.score(), 21);
            app.on_draw();
            assert_eq!(app.player_hand.cards.len(), 2);
            assert_eq!(app.player_status, PlayerStatus::Blackjack);
            return;
        }
    }
    panic!("no opening blackjack in 2000 deals");
}

#[test]
fn stay_transitions_only_from_awaiting_action() {
    let mut app = table(
        vec![card(Rank::Ten, Suit::Spade), card(Rank::Nine, Suit::Heart)],
        vec![card(Rank::Ten, Suit::Club), card(Rank::Seven, Suit::Diamond)],
        PlayerStatus::Draw,
    );
    app.on_stay();
    assert_eq!(app.player_status, PlayerStatus::Stand);
    app.on_stay();
    assert_eq!(app.player_status, PlayerStatus::Stand);

    let mut busted = table(
        vec![
            card(Rank::Ten, Suit::Spade),
            card(Rank::Seven, Suit::Heart),
            card(Rank::Eight, Suit::Club),
        ],
        vec![card(Rank::Ten, Suit::Club), card(Rank::Seven, Suit::Diamond)],
        PlayerStatus::Bust,
    );
    busted.on_stay();
    assert_eq!(busted.player_status, PlayerStatus::Bust);
}

#[test]
fn nonqualifying_ticks_mutate_nothing() {
    let build = || {
        table(
            vec![
                card(Rank::Ten, Suit::Spade),
                card(Rank::Seven, Suit::Heart),
                card(Rank::Eight, Suit::Club),
            ],
            vec![card(Rank::Ten, Suit::Club), card(Rank::Seven, Suit::Diamond)],
            PlayerStatus::Bust,
        )
    };
    let mut app = build();
    for counter in [1u64, 2, 3, 5, 6, 7, 9, 101, 1003] {
        app.on_tick(counter);
        assert_eq!(app, build());
    }
}

#[test]
fn player_bust_loses_regardless_of_dealer() {
    let player = vec![
        card(Rank::Ten, Suit::Spade),
        card(Rank::Seven, Suit::Heart),
        card(Rank::Five, Suit::Club),
    ];
    let weak_dealer = vec![card(Rank::Two, Suit::Club), card(Rank::Two, Suit::Diamond)];
    let strong_dealer = vec![card(Rank::Ace, Suit::Club), card(Rank::King, Suit::Diamond)];
    for dealer in [weak_dealer, strong_dealer] {
        let mut app = table(player.clone(), dealer, PlayerStatus::Bust);
        app.on_tick(4);
        assert_eq!(app.result, Some(GameResult::Lost));
    }
}

#[test]
fn dealer_bust_wins_for_the_player() {
    let mut app = table(
        vec![card(Rank::Ten, Suit::Spade), card(Rank::Nine, Suit::Heart)],
        vec![
            card(Rank::Ten, Suit::Club),
            card(Rank::Nine, Suit::Diamond),
            card(Rank::Five, Suit::Spade),
        ],
        PlayerStatus::Stand,
    );
    app.on_tick(0);
    assert_eq!(app.result, Some(GameResult::Won));
}

#[test]
fn standing_twenty_beats_dealer_seventeen() {
    let mut app = table(
        vec![card(Rank::Ten, Suit::Spade), card(Rank::Queen, Suit::Heart)],
        vec![card(Rank::Ten, Suit::Club), card(Rank::Seven, Suit::Diamond)],
        PlayerStatus::Stand,
    );
    app.on_tick(0);
    assert_eq!(app.result, Some(GameResult::Won));
}

#[test]
fn equal_standings_push() {
    let mut app = table(
        vec![
            card(Rank::Five, Suit::Spade),
            card(Rank::Six, Suit::Heart),
            card(Rank::Eight, Suit::Diamond),
        ],
        vec![card(Rank::Ten, Suit::Club), card(Rank::Nine, Suit::Diamond)],
        PlayerStatus::Stand,
    );
    app.on_tick(0);
    assert_eq!(app.result, Some(GameResult::Push));
}

#[test]
fn two_blackjacks_push() {
    let mut app = table(
        vec![card(Rank::Ace, Suit::Spade), card(Rank::King, Suit::Heart)],
        vec![card(Rank::Ace, Suit::Diamond), card(Rank::Queen, Suit::Club)],
        PlayerStatus::Blackjack,
    );
    app.on_tick(0);
    assert_eq!(app.result, Some(GameResult::Push));
}

#[test]
fn dealer_blackjack_beats_a_plain_twenty_one() {
    let mut app = table(
        vec![
            card(Rank::Seven, Suit::Spade),
            card(Rank::Seven, Suit::Heart),
            card(Rank::Seven, Suit::Club),
        ],
        vec![card(Rank::Ace, Suit::Diamond), card(Rank::King, Suit::Club)],
        PlayerStatus::Stand,
    );
    app.on_tick(0);
    assert_eq!(app.result, Some(GameResult::Lost));
}

#[test]
fn player_blackjack_beats_a_plain_twenty_one() {
    let mut app = table(
        vec![card(Rank::Ace, Suit::Spade), card(Rank::King, Suit::Heart)],
        vec![
            card(Rank::Seven, Suit::Diamond),
            card(Rank::Seven, Suit::Club),
            card(Rank::Seven, Suit::Spade),
        ],
        PlayerStatus::Blackjack,
    );
    app.on_tick(0);
    assert_eq!(app.result, Some(GameResult::Won));
}

#[test]
fn the_hole_card_is_revealed_before_any_other_dealer_action() {
    let hole = Card { rank: Rank::Ten, suit: Suit::Club, hidden: true };
    let mut app = table(
        vec![card(Rank::Ten, Suit::Spade), card(Rank::Nine, Suit::Heart)],
        vec![hole, card(Rank::Seven, Suit::Diamond)],
        PlayerStatus::Stand,
    );
    app.on_tick(0);
    assert!(!app.dealer_hand.cards[0].hidden);
    assert_eq!(app.dealer_hand.cards.len(), 2);
    assert!(app.result.is_none(), "the reveal must be its own visible step");
    app.on_tick(4);
    assert_eq!(app.result, Some(GameResult::Won));
}

#[test]
fn the_dealer_plays_out_to_at_least_seventeen() {
    for _ in 0..20 {
        let mut app = App::new();
        app.on_start();
        app.on_stay();
        let mut counter: u64 = 0;
        while app.result.is_none() && counter < 400 {
            app.on_tick(counter);
            counter += 1;
        }
        assert!(app.result.is_some(), "the round must resolve");
        assert!(!app.dealer_hand.has_hidden());
        let dealer_score = app.dealer_hand.score();
        assert!(dealer_score >= 17, "the dealer stands only at 17 or more");
        if dealer_score > 21 {
            assert_eq!(app.result, Some(GameResult::Won));
        }
        let total =
            app.deck.cards().len() + app.player_hand.cards.len() + app.dealer_hand.cards.len();
        assert_eq!(total, 52);
    }
}

#[test]
fn a_full_round_with_player_draws_resolves() {
    for _ in 0..20 {
        let mut app = App::new();
        app.on_start();
        while app.player_status == PlayerStatus::Draw && app.player_hand.score() < 17 {
            app.on_draw();
        }
        app.on_stay();
        let mut counter: u64 = 0;
        while app.result.is_none() && counter < 400 {
            app.on_tick(counter);
            counter += 1;
        }
        assert!(app.result.is_some());
        if app.player_hand.score() > 21 {
            assert_eq!(app.result, Some(GameResult::Lost));
        }
    }
}
