//! Tests of the generic engine: seat rotation, the trick accumulator and
//! its resolution, the hand state machine, and the match score.

use shuftlib::cards::{ItalianRank, Suit};
use shuftlib::game::MatchScore;
use shuftlib::hands::{OngoingHand, PlayError, Player};
use shuftlib::seats::PlayerId;
use shuftlib::tressette::{TressetteCard, TressetteGame};
use shuftlib::tricks::OngoingTrick;

fn card(rank: ItalianRank, suit: Suit) -> TressetteCard {
    TressetteCard::new(rank, suit)
}

fn seat(i: usize) -> PlayerId<4> {
    PlayerId::new(i).unwrap()
}

const RANKS: [ItalianRank; 10] = [
    ItalianRank::Ace,
    ItalianRank::Two,
    ItalianRank::Three,
    ItalianRank::Four,
    ItalianRank::Five,
    ItalianRank::Six,
    ItalianRank::Seven,
    ItalianRank::Jack,
    ItalianRank::Knight,
    ItalianRank::King,
];

/// One full suit of ten cards.
fn full_suit(suit: Suit) -> Vec<TressetteCard> {
    RANKS.iter().map(|&r| card(r, suit)).collect()
}

#[test]
fn seat_construction_bounds() {
    assert!(PlayerId::<4>::new(0).is_some());
    assert!(PlayerId::<4>::new(3).is_some());
    assert!(PlayerId::<4>::new(4).is_none());
    assert!(PlayerId::<4>::new(100).is_none());
    assert_eq!(seat(2).get(), 2);
}

#[test]
fn seat_increment_wraps() {
    let mut s = seat(3);
    s.increment();
    assert_eq!(s.get(), 0);
}

#[test]
fn seat_increment_full_cycles_return_home() {
    // One full cycle of four increments, and any number of further
    // cycles, return the seat to itself.
    for start in 0..4 {
        let mut s = seat(start);
        for _ in 0..4 {
            s.increment();
        }
        assert_eq!(s.get(), start);
        for _ in 0..(4 * 5) {
            s.increment();
        }
        assert_eq!(s.get(), start);
    }
}

#[test]
fn trick_taker_follows_leading_suit() {
    let mut trick = OngoingTrick::<TressetteGame>::new(seat(1));
    assert_eq!(trick.next_to_play().get(), 1);
    // Seats 1, 2, 3, 0 play in rotation; seat 1 leads Diamonds.
    assert!(trick.play(card(ItalianRank::Jack, Suit::Diamonds)).is_ok());
    assert!(trick.play(card(ItalianRank::Three, Suit::Diamonds)).is_ok());
    assert!(trick.play(card(ItalianRank::Three, Suit::Spades)).is_ok());
    assert!(trick.play(card(ItalianRank::Ace, Suit::Diamonds)).is_ok());
    let done = trick.finish().expect("four cards were played");
    // The taken-with card has the leading suit, and no other diamond in
    // the trick outranks the Three of Diamonds.
    assert_eq!(done.taken_with().suit(), Suit::Diamonds);
    assert_eq!(done.taken_with(), card(ItalianRank::Three, Suit::Diamonds));
    assert_eq!(done.taker().get(), 2);
    assert_eq!(done.first_to_play().get(), 1);
    assert_eq!(done.card(seat(0)), card(ItalianRank::Ace, Suit::Diamonds));
}

#[test]
fn trick_duplicate_rejected_exactly_once() {
    let mut trick = OngoingTrick::<TressetteGame>::new(seat(0));
    let dup = card(ItalianRank::Ace, Suit::Hearts);
    assert!(trick.play(dup).is_ok());
    // The duplicate fails at the point it is introduced...
    assert!(trick.play(dup).is_err());
    // ...and the rest of the sequence is accepted again.
    assert!(trick.play(card(ItalianRank::Two, Suit::Hearts)).is_ok());
    assert!(trick.play(card(ItalianRank::Three, Suit::Hearts)).is_ok());
    // Three cards landed, so the trick never reaches full.
    assert_eq!(trick.play_count(), 3);
    assert!(!trick.is_full());
    assert!(trick.finish().is_none());
}

#[test]
fn trick_duplicate_rejected_wherever_introduced() {
    // The same law with the duplicate arriving as the fourth play,
    // repeating the second: the three distinct cards are accepted, the
    // one repetition is rejected, and the trick stays unresolved.
    let mut trick = OngoingTrick::<TressetteGame>::new(seat(0));
    assert!(trick.play(card(ItalianRank::Ace, Suit::Clubs)).is_ok());
    assert!(trick.play(card(ItalianRank::Two, Suit::Clubs)).is_ok());
    assert!(trick.play(card(ItalianRank::Three, Suit::Clubs)).is_ok());
    assert!(trick.play(card(ItalianRank::Two, Suit::Clubs)).is_err());
    assert_eq!(trick.play_count(), 3);
    assert!(!trick.is_full());
    assert!(trick.finish().is_none());
}

#[test]
fn incomplete_trick_does_not_resolve() {
    let mut trick = OngoingTrick::<TressetteGame>::new(seat(0));
    assert!(trick.finish().is_none());
    assert!(trick.play(card(ItalianRank::Seven, Suit::Clubs)).is_ok());
    assert!(trick.play(card(ItalianRank::Four, Suit::Clubs)).is_ok());
    assert!(trick.play(card(ItalianRank::King, Suit::Clubs)).is_ok());
    assert_eq!(trick.play_count(), 3);
    assert!(trick.finish().is_none());
}

#[test]
fn finish_twice_yields_equal_records() {
    let mut trick = OngoingTrick::<TressetteGame>::new(seat(2));
    assert!(trick.play(card(ItalianRank::Five, Suit::Spades)).is_ok());
    assert!(trick.play(card(ItalianRank::Two, Suit::Spades)).is_ok());
    assert!(trick.play(card(ItalianRank::Ace, Suit::Hearts)).is_ok());
    assert!(trick.play(card(ItalianRank::Six, Suit::Spades)).is_ok());
    let a = trick.finish().expect("the trick is full");
    let b = trick.finish().expect("finishing is read-only");
    assert_eq!(a.cards(), b.cards());
    assert_eq!(a.taker().get(), b.taker().get());
    assert_eq!(a.first_to_play().get(), b.first_to_play().get());
}

#[test]
fn player_deal_replaces_hand() {
    let mut p: Player<TressetteGame> = Player::new(seat(1));
    assert_eq!(p.id().get(), 1);
    assert!(p.hand().is_empty());
    p.deal(full_suit(Suit::Clubs));
    assert_eq!(p.hand().len(), 10);
}

#[test]
fn hand_rejects_illegal_plays() {
    // Seat 0 holds Hearts plus one Spade; seat 1 holds one Heart among
    // Diamonds; seats 2 and 3 hold Clubs and Spades.
    let hands = vec![
        vec![
            card(ItalianRank::Ace, Suit::Hearts),
            card(ItalianRank::Two, Suit::Spades),
        ],
        vec![
            card(ItalianRank::Three, Suit::Diamonds),
            card(ItalianRank::Seven, Suit::Hearts),
        ],
        vec![card(ItalianRank::Four, Suit::Clubs)],
        vec![card(ItalianRank::Five, Suit::Spades)],
    ];
    let mut hand = OngoingHand::<TressetteGame>::new(hands, seat(0));
    // Not seat 1's turn yet.
    assert_eq!(
        hand.play(seat(1), card(ItalianRank::Three, Suit::Diamonds)),
        Err(PlayError::NotYourTurn)
    );
    // Seat 0 does not hold this card.
    assert_eq!(
        hand.play(seat(0), card(ItalianRank::King, Suit::Hearts)),
        Err(PlayError::CardNotHeld)
    );
    // Seat 0 leads Hearts.
    assert_eq!(hand.play(seat(0), card(ItalianRank::Ace, Suit::Hearts)), Ok(()));
    assert_eq!(hand.leading_suit(), Some(Suit::Hearts));
    // Seat 1 holds a Heart, so the Diamond discard breaks must-follow-suit.
    assert_eq!(
        hand.play(seat(1), card(ItalianRank::Three, Suit::Diamonds)),
        Err(PlayError::MustFollowSuit)
    );
    // The state is unchanged: the corrected play from the same seat works.
    assert_eq!(hand.play(seat(1), card(ItalianRank::Seven, Suit::Hearts)), Ok(()));
}

#[test]
fn hand_rejects_duplicate_card_from_bad_deal() {
    // A corrupt deal hands the same card to seats 0 and 1; the trick
    // accumulator reports the duplicate when the second copy arrives.
    let dup = card(ItalianRank::Ace, Suit::Hearts);
    let hands = vec![
        vec![dup],
        vec![dup],
        vec![card(ItalianRank::Four, Suit::Clubs)],
        vec![card(ItalianRank::Five, Suit::Spades)],
    ];
    let mut hand = OngoingHand::<TressetteGame>::new(hands, seat(0));
    assert_eq!(hand.play(seat(0), dup), Ok(()));
    assert_eq!(hand.play(seat(1), dup), Err(PlayError::DuplicateCard));
}

#[test]
fn hand_swept_by_one_seat_scores_everything() {
    // Seat 0 holds all ten Hearts and leads every trick; nobody else can
    // follow suit, so seat 0 takes all ten tricks. Its side scores the
    // values of all forty cards plus the last-trick bonus — 32 + 3 thirds
    // — and the opposing side scores exactly zero.
    let hands = vec![
        full_suit(Suit::Hearts),
        full_suit(Suit::Diamonds),
        full_suit(Suit::Clubs),
        full_suit(Suit::Spades),
    ];
    let mut hand = OngoingHand::<TressetteGame>::new(hands, seat(0));
    while !hand.is_complete() {
        let s = hand.next_to_play();
        let legal = hand.playable_cards(s);
        assert!(!legal.is_empty());
        assert_eq!(hand.play(s, legal[0]), Ok(()));
    }
    assert_eq!(hand.completed_tricks().len(), 10);
    for t in hand.completed_tricks() {
        assert_eq!(t.taker().get(), 0);
        assert_eq!(t.taken_with().suit(), Suit::Hearts);
    }
    let scores = hand.score();
    assert_eq!(scores, (35, 0));
    let record = hand.finish();
    assert_eq!(record.scores(), (35, 0));
    assert_eq!(record.tricks().len(), 10);
}

#[test]
fn match_score_accumulates_and_rotates_dealer() {
    let mut m = MatchScore::new(seat(3));
    assert_eq!(m.scores(), (0, 0));
    assert_eq!(m.dealer().get(), 3);
    m.record_hand((35, 0));
    assert_eq!(m.scores(), (35, 0));
    assert_eq!(m.dealer().get(), 0);
    assert!(!m.is_over::<TressetteGame>());
    m.record_hand((20, 15));
    assert!(!m.is_over::<TressetteGame>());
    m.record_hand((10, 25));
    // Side 0 reached 65 thirds, past the threshold of 63.
    assert!(m.is_over::<TressetteGame>());
    assert_eq!(m.leading_side(), Some(0));
}

#[test]
fn match_score_tie_has_no_leader() {
    let mut m = MatchScore::new(seat(0));
    m.record_hand((64, 64));
    assert!(m.is_over::<TressetteGame>());
    assert_eq!(m.leading_side(), None);
}
