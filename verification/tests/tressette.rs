//! Tests of the Tressette rule set: card construction, the ranking and
//! value tables, trick resolution scenarios, and the legality filter.

use num_rational::Rational32;
use shuftlib::cards::{ItalianCard, ItalianRank, Suit};
use shuftlib::rules::{playable, TrickTakingGame};
use shuftlib::seats::PlayerId;
use shuftlib::tressette::{TressetteCard, TressetteGame, SCORE_TO_WIN, SCORE_TO_WIN_THIRDS};

fn card(rank: ItalianRank, suit: Suit) -> TressetteCard {
    TressetteCard::new(rank, suit)
}

#[test]
fn card_new_keeps_rank_and_suit() {
    let c = card(ItalianRank::Knight, Suit::Clubs);
    assert_eq!(c.rank(), ItalianRank::Knight);
    assert_eq!(c.suit(), Suit::Clubs);
    assert_eq!(c.card(), ItalianCard::new(ItalianRank::Knight, Suit::Clubs));
}

#[test]
fn card_from_italian_card() {
    let ic = ItalianCard::new(ItalianRank::Two, Suit::Spades);
    let c = TressetteCard::from(ic);
    assert_eq!(c.card(), ic);
    assert_eq!(c, card(ItalianRank::Two, Suit::Spades));
}

#[test]
fn value_thirds_table() {
    let suits = [Suit::Hearts, Suit::Diamonds, Suit::Clubs, Suit::Spades];
    for &s in suits.iter() {
        assert_eq!(card(ItalianRank::Ace, s).value_thirds(), 3);
        assert_eq!(card(ItalianRank::Two, s).value_thirds(), 1);
        assert_eq!(card(ItalianRank::Three, s).value_thirds(), 1);
        assert_eq!(card(ItalianRank::King, s).value_thirds(), 1);
        assert_eq!(card(ItalianRank::Knight, s).value_thirds(), 1);
        assert_eq!(card(ItalianRank::Jack, s).value_thirds(), 1);
        assert_eq!(card(ItalianRank::Four, s).value_thirds(), 0);
        assert_eq!(card(ItalianRank::Five, s).value_thirds(), 0);
        assert_eq!(card(ItalianRank::Six, s).value_thirds(), 0);
        assert_eq!(card(ItalianRank::Seven, s).value_thirds(), 0);
    }
}

#[test]
fn value_as_exact_rational() {
    let ace = card(ItalianRank::Ace, Suit::Hearts);
    let two = card(ItalianRank::Two, Suit::Spades);
    let four = card(ItalianRank::Four, Suit::Clubs);
    assert_eq!(ace.value(), Rational32::new(3, 3));
    assert_eq!(two.value(), Rational32::new(1, 3));
    assert_eq!(four.value(), Rational32::new(0, 3));
    assert_ne!(two.value(), four.value());
    assert_ne!(ace.value(), two.value());
    // Cards of equal scoring weight map to the same fraction.
    assert_eq!(two.value(), card(ItalianRank::King, Suit::Hearts).value());
    assert_eq!(four.value(), card(ItalianRank::Seven, Suit::Diamonds).value());
}

#[test]
fn rank_order_low_to_high() {
    // Tressette rank order: 4 < 5 < 6 < 7 < J < Knight < K < A < 2 < 3.
    let order = [
        ItalianRank::Four,
        ItalianRank::Five,
        ItalianRank::Six,
        ItalianRank::Seven,
        ItalianRank::Jack,
        ItalianRank::Knight,
        ItalianRank::King,
        ItalianRank::Ace,
        ItalianRank::Two,
        ItalianRank::Three,
    ];
    for w in order.windows(2) {
        assert!(card(w[0], Suit::Hearts) < card(w[1], Suit::Hearts));
    }
    assert!(card(ItalianRank::Three, Suit::Hearts) > card(ItalianRank::Ace, Suit::Hearts));
}

#[test]
fn rank_order_ignores_suits() {
    let a = card(ItalianRank::King, Suit::Hearts);
    let b = card(ItalianRank::King, Suit::Spades);
    assert_eq!(a.partial_cmp(&b), Some(std::cmp::Ordering::Equal));
    assert_ne!(a, b);
}

#[test]
fn determine_taker_highest_of_leading_suit() {
    // Hearts ace, two, three, four from seats 0..3, seat 0 leading:
    // Hearts-3 is maximal under the Tressette order, so seat 2 takes.
    let cards = vec![
        card(ItalianRank::Ace, Suit::Hearts),
        card(ItalianRank::Two, Suit::Hearts),
        card(ItalianRank::Three, Suit::Hearts),
        card(ItalianRank::Four, Suit::Hearts),
    ];
    let taker = TressetteGame::determine_taker(&cards, PlayerId::new(0).unwrap());
    assert_eq!(taker.get(), 2);
    // The same four cards with seat 2 leading still resolve to seat 2.
    let taker = TressetteGame::determine_taker(&cards, PlayerId::new(2).unwrap());
    assert_eq!(taker.get(), 2);
}

#[test]
fn determine_taker_discards_cannot_win() {
    // Only the leader follows Hearts; the off-suit discards outrank it but
    // cannot win the trick.
    let cards = vec![
        card(ItalianRank::Four, Suit::Hearts),
        card(ItalianRank::Three, Suit::Spades),
        card(ItalianRank::Three, Suit::Clubs),
        card(ItalianRank::Ace, Suit::Diamonds),
    ];
    let taker = TressetteGame::determine_taker(&cards, PlayerId::new(0).unwrap());
    assert_eq!(taker.get(), 0);
}

#[test]
fn playable_without_leading_suit_is_whole_hand() {
    let hand = vec![
        card(ItalianRank::Ace, Suit::Hearts),
        card(ItalianRank::Two, Suit::Spades),
    ];
    let legal = playable::<TressetteGame>(&hand, None);
    assert_eq!(legal, hand);
}

#[test]
fn playable_must_follow_suit_when_able() {
    let hand = vec![
        card(ItalianRank::Ace, Suit::Hearts),
        card(ItalianRank::Two, Suit::Spades),
        card(ItalianRank::Five, Suit::Hearts),
    ];
    let legal = playable::<TressetteGame>(&hand, Some(Suit::Hearts));
    assert_eq!(
        legal,
        vec![
            card(ItalianRank::Ace, Suit::Hearts),
            card(ItalianRank::Five, Suit::Hearts),
        ]
    );
}

#[test]
fn playable_discard_anything_when_unable_to_follow() {
    let hand = vec![
        card(ItalianRank::Ace, Suit::Clubs),
        card(ItalianRank::Two, Suit::Spades),
    ];
    let legal = playable::<TressetteGame>(&hand, Some(Suit::Hearts));
    assert_eq!(legal, hand);
}

#[test]
fn match_over_at_threshold() {
    assert_eq!(SCORE_TO_WIN, 21);
    assert_eq!(SCORE_TO_WIN_THIRDS, 63);
    assert!(!TressetteGame::is_match_over((62, 62)));
    assert!(TressetteGame::is_match_over((63, 0)));
    assert!(TressetteGame::is_match_over((0, 70)));
}
