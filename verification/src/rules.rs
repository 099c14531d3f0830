//! The pluggable rule set a concrete game variant supplies: card ranking,
//! legality of plays, trick resolution, scoring weights, and the win
//! threshold. The engine is generic over this capability.

use crate::seats::PlayerId;
use vstd::prelude::*;

verus! {

/// Number of seats around the table; the engine is fixed to four players.
pub const PLAYERS: usize = 4;

/// Seat `taker` wins the completed trick `cards` led by seat `first`:
/// its card follows the leading suit — the suit of the card that `first`
/// played — and no card of that suit outranks it.
pub open spec fn winning_seat<G: TrickTakingGame>(
    cards: Seq<G::CardType>,
    first: int,
    taker: int,
) -> bool {
    &&& 0 <= taker < cards.len()
    &&& G::spec_suit(cards[taker]) == G::spec_suit(cards[first])
    &&& forall|i: int|
        0 <= i < cards.len() && G::spec_suit(#[trigger] cards[i]) == G::spec_suit(cards[first])
            ==> G::spec_rank(cards[i]) <= G::spec_rank(cards[taker])
}

/// The cards of `hand` that follow suit `s`, kept in hand order.
pub open spec fn follow_suit<G: TrickTakingGame>(
    hand: Seq<G::CardType>,
    s: G::SuitType,
) -> Seq<G::CardType>
    decreases hand.len(),
{
    if hand.len() == 0 {
        Seq::empty()
    } else {
        let rest = follow_suit::<G>(hand.drop_last(), s);
        if G::spec_suit(hand.last()) == s {
            rest.push(hand.last())
        } else {
            rest
        }
    }
}

/// The plays the rules allow from `hand` under `leading`: every held card
/// when there is no leading suit yet or none can be followed, otherwise
/// exactly the held cards of the leading suit.
pub open spec fn legal_plays<G: TrickTakingGame>(
    hand: Seq<G::CardType>,
    leading: Option<G::SuitType>,
) -> Seq<G::CardType> {
    match leading {
        Option::None => hand,
        Option::Some(s) => if follow_suit::<G>(hand, s).len() > 0 {
            follow_suit::<G>(hand, s)
        } else {
            hand
        },
    }
}

/// `follow_suit` keeps a card exactly when the hand holds one of that suit,
/// and everything it keeps is of that suit.
pub proof fn lemma_follow_suit<G: TrickTakingGame>(hand: Seq<G::CardType>, s: G::SuitType)
    ensures
        (follow_suit::<G>(hand, s).len() > 0 <==> exists|i: int|
            0 <= i < hand.len() && G::spec_suit(#[trigger] hand[i]) == s),
        forall|j: int|
            0 <= j < follow_suit::<G>(hand, s).len() ==> G::spec_suit(
                #[trigger] follow_suit::<G>(hand, s)[j],
            ) == s,
    decreases hand.len(),
{
    if hand.len() > 0 {
        lemma_follow_suit::<G>(hand.drop_last(), s);
        if G::spec_suit(hand.last()) == s {
            assert(G::spec_suit(hand[hand.len() - 1]) == s);
        } else {
            assert forall|i: int|
                0 <= i < hand.len() && G::spec_suit(#[trigger] hand[i]) == s implies exists|k: int|
                0 <= k < hand.len() - 1 && G::spec_suit(#[trigger] hand.drop_last()[k]) == s by {
                if i < hand.len() - 1 {
                    assert(hand.drop_last()[i] == hand[i]);
                }
            }
        }
    }
}

/// The per-game rules: a variant implements the spec-level model of its
/// cards (suit, ranking position, scoring weight), the two laws the engine
/// leans on, and executable forms of each operation. Trick resolution, the
/// legality filter, and the end-of-match test come with verified default
/// bodies shared by every variant.
pub trait TrickTakingGame: Sized {
    /// The card the variant is played with.
    type CardType: Copy;

    /// The suit projection of a card, used for the must-follow-suit rule.
    type SuitType: Copy;

    /// Number of tricks in one hand.
    spec fn spec_tricks() -> int;

    /// The suit of a card.
    spec fn spec_suit(c: Self::CardType) -> Self::SuitType;

    /// The position of a card in the variant's ranking order; higher wins.
    spec fn spec_rank(c: Self::CardType) -> int;

    /// The scoring weight of a card, in thirds of a point.
    spec fn spec_value(c: Self::CardType) -> int;

    /// The bonus, in thirds of a point, for taking the last trick of a hand.
    spec fn spec_last_trick_bonus() -> int;

    /// The accumulated score, in thirds of a point, at which the match ends.
    spec fn spec_win_threshold() -> int;

    /// The side (partnership) a seat scores for: `0` or `1`.
    spec fn spec_side(seat: int) -> int;

    /// Law: the ranking is strict — two distinct cards of one suit never
    /// share a ranking position, so a completed trick has exactly one taker.
    proof fn lemma_rank_strict(a: Self::CardType, b: Self::CardType)
        requires
            Self::spec_suit(a) == Self::spec_suit(b),
            Self::spec_rank(a) == Self::spec_rank(b),
        ensures
            a == b,
    ;

    /// Law: the variant's parameters are small enough that every score the
    /// engine accumulates fits comfortably in machine integers.
    proof fn lemma_bounds()
        ensures
            1 <= Self::spec_tricks() <= 0x1000,
            0 <= Self::spec_last_trick_bonus() <= 0xffff,
            0 <= Self::spec_win_threshold() <= 0xffff_ffff,
            forall|c: Self::CardType| 0 <= #[trigger] Self::spec_value(c) <= 0xffff,
            forall|c: Self::CardType| 0 <= #[trigger] Self::spec_rank(c) <= 0xffff,
            forall|seat: int| 0 <= #[trigger] Self::spec_side(seat) <= 1,
    ;

    /// Number of tricks in one hand.
    fn tricks() -> (t: usize)
        ensures
            t as int == Self::spec_tricks(),
    ;

    /// The suit of a card.
    fn suit_of(c: &Self::CardType) -> (s: Self::SuitType)
        ensures
            s == Self::spec_suit(*c),
    ;

    /// The position of a card in the variant's ranking order.
    fn rank_of(c: &Self::CardType) -> (r: usize)
        ensures
            r as int == Self::spec_rank(*c),
    ;

    /// The scoring weight of a card, in thirds of a point.
    fn value_of(c: &Self::CardType) -> (v: u32)
        ensures
            v as int == Self::spec_value(*c),
    ;

    /// The bonus, in thirds of a point, for taking the last trick.
    fn last_trick_bonus() -> (b: u32)
        ensures
            b as int == Self::spec_last_trick_bonus(),
    ;

    /// The accumulated score, in thirds of a point, that ends the match.
    fn win_threshold() -> (t: u64)
        ensures
            t as int == Self::spec_win_threshold(),
    ;

    /// The side a seat scores for.
    fn side_of(seat: usize) -> (s: usize)
        requires
            seat < PLAYERS,
        ensures
            s as int == Self::spec_side(seat as int),
            s <= 1,
    ;

    /// Equality of two cards.
    fn cards_equal(a: &Self::CardType, b: &Self::CardType) -> (r: bool)
        ensures
            r <==> (a == b),
    ;

    /// Equality of two suits.
    fn suits_equal(a: &Self::SuitType, b: &Self::SuitType) -> (r: bool)
        ensures
            r <==> (a == b),
    ;

    /// Resolves a completed trick: among the seats whose cards follow the
    /// leading suit — the suit of the card played by `first_to_play`, which
    /// always qualifies — the one holding the highest-ranked card takes the
    /// trick. The three `ensures` clauses together spell out `winning_seat`.
    fn determine_taker(cards: &Vec<Self::CardType>, first_to_play: PlayerId<4>) -> (taker: PlayerId<
        4,
    >)
        requires
            cards@.len() == PLAYERS,
        ensures
            0 <= taker@ < cards@.len(),
            Self::spec_suit(cards@[taker@]) == Self::spec_suit(cards@[first_to_play@]),
            forall|i: int|
                0 <= i < cards@.len() && Self::spec_suit(#[trigger] cards@[i]) == Self::spec_suit(
                    cards@[first_to_play@],
                ) ==> Self::spec_rank(cards@[i]) <= Self::spec_rank(cards@[taker@]),
    {
        let first = first_to_play.get();
        let leading = Self::suit_of(&cards[first]);
        let mut best: usize = first;
        let mut i: usize = 0;
        while i < PLAYERS
            invariant
                cards@.len() == PLAYERS,
                first < PLAYERS,
                best < PLAYERS,
                i <= PLAYERS,
                leading == Self::spec_suit(cards@[first as int]),
                Self::spec_suit(cards@[best as int]) == Self::spec_suit(cards@[first as int]),
                forall|k: int|
                    0 <= k < i && Self::spec_suit(#[trigger] cards@[k]) == Self::spec_suit(
                        cards@[first as int],
                    ) ==> Self::spec_rank(cards@[k]) <= Self::spec_rank(cards@[best as int]),
            decreases PLAYERS - i,
        {
            let suit_i = Self::suit_of(&cards[i]);
            if Self::suits_equal(&suit_i, &leading) {
                if Self::rank_of(&cards[i]) > Self::rank_of(&cards[best]) {
                    best = i;
                }
            }
            i = i + 1;
        }
        PlayerId::<4>::from_index(best)
    }

    /// The match ends once at least one side's accumulated score, in thirds
    /// of a point, reaches the win threshold.
    fn is_match_over(scores: (u64, u64)) -> (r: bool)
        ensures
            r <==> (scores.0 >= Self::spec_win_threshold() || scores.1
                >= Self::spec_win_threshold()),
    {
        let t = Self::win_threshold();
        scores.0 >= t || scores.1 >= t
    }
}

/// The cards from `hand` that the rules allow under `leading`: with no
/// leading suit every held card is legal; under one, the player must
/// follow suit when able and may otherwise discard anything.
pub fn playable<G: TrickTakingGame>(
    hand: &Vec<G::CardType>,
    leading: Option<G::SuitType>,
) -> (r: Vec<G::CardType>)
    ensures
        r@ == legal_plays::<G>(hand@, leading),
{
    match leading {
        Option::None => copy_cards::<G>(hand),
        Option::Some(s) => {
            let mut follow: Vec<G::CardType> = Vec::new();
            let mut i: usize = 0;
            while i < hand.len()
                invariant
                    i <= hand@.len(),
                    follow@ == follow_suit::<G>(hand@.subrange(0, i as int), s),
                decreases hand@.len() - i,
            {
                let suit_i = G::suit_of(&hand[i]);
                proof {
                    let prefix = hand@.subrange(0, i as int);
                    let next = hand@.subrange(0, i + 1);
                    assert(next.drop_last() =~= prefix);
                    assert(next.last() == hand@[i as int]);
                }
                if G::suits_equal(&suit_i, &s) {
                    follow.push(hand[i]);
                }
                i = i + 1;
            }
            proof {
                assert(hand@.subrange(0, hand@.len() as int) =~= hand@);
            }
            if follow.len() > 0 {
                follow
            } else {
                copy_cards::<G>(hand)
            }
        },
    }
}

/// A by-value copy of a list of cards.
fn copy_cards<G: TrickTakingGame>(hand: &Vec<G::CardType>) -> (r: Vec<G::CardType>)
    ensures
        r@ == hand@,
{
    let mut r: Vec<G::CardType> = Vec::new();
    let mut i: usize = 0;
    while i < hand.len()
        invariant
            i <= hand@.len(),
            r@ == hand@.subrange(0, i as int),
        decreases hand@.len() - i,
    {
        proof {
            assert(hand@.subrange(0, i + 1).drop_last() =~= hand@.subrange(0, i as int));
            assert(hand@.subrange(0, i + 1) =~= hand@.subrange(0, i as int).push(
                hand@[i as int],
            ));
        }
        r.push(hand[i]);
        i = i + 1;
    }
    proof {
        assert(hand@.subrange(0, hand@.len() as int) =~= hand@);
    }
    r
}

} // verus!
