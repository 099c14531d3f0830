//! The Tressette instantiation of the trick-taking engine: its card, its
//! ranking and scoring tables, and its rule-set type.

use crate::cards::{ItalianCard, ItalianRank, Suit};
use crate::rules::TrickTakingGame;
use num_rational::Rational32;
use vstd::prelude::*;

verus! {

/// Points a side must accumulate to win a match, in whole points.
pub const SCORE_TO_WIN: u32 = 21;

/// The same win threshold in thirds of a point, the unit every score the
/// engine keeps is expressed in.
pub const SCORE_TO_WIN_THIRDS: u64 = 63;

/// The Tressette rule set: four players, ten tricks, the Tressette ranking
/// and scoring tables, and a one-point bonus for the last trick.
#[derive(Clone, Copy, Debug, PartialEq, Eq, Structural)]
pub struct TressetteGame {}

impl TressetteGame {
    /// Builds the rule-set token for a Tressette game.
    pub fn new() -> (g: Self)
        ensures
            g == (TressetteGame {}),
    {
        TressetteGame {}
    }
}

/// Representation of a card used in variations of the Tressette game. It's
/// just a new type over `ItalianCard`.
#[derive(Clone, Copy, Debug, PartialEq, Eq, Structural, Hash)]
pub struct TressetteCard {
    card: ItalianCard,
}

/// Position of a rank in the Tressette ranking order
/// `4 < 5 < 6 < 7 < J < Knight < K < A < 2 < 3`; a higher position wins.
pub open spec fn rank_position(r: ItalianRank) -> int {
    match r {
        ItalianRank::Four => 0,
        ItalianRank::Five => 1,
        ItalianRank::Six => 2,
        ItalianRank::Seven => 3,
        ItalianRank::Jack => 4,
        ItalianRank::Knight => 5,
        ItalianRank::King => 6,
        ItalianRank::Ace => 7,
        ItalianRank::Two => 8,
        ItalianRank::Three => 9,
    }
}

/// Scoring weight of a rank in thirds of a point: the ace counts a whole
/// point, twos, threes and face cards a third each, the rest nothing.
pub open spec fn rank_value(r: ItalianRank) -> int {
    match r {
        ItalianRank::Ace => 3,
        ItalianRank::Two
        | ItalianRank::Three
        | ItalianRank::King
        | ItalianRank::Knight
        | ItalianRank::Jack => 1,
        ItalianRank::Four | ItalianRank::Five | ItalianRank::Six | ItalianRank::Seven => 0,
    }
}

impl TressetteCard {
    /// The underlying Italian card, for use in specifications.
    pub closed spec fn spec_card(self) -> ItalianCard {
        self.card
    }

    /// The rank component, for use in specifications.
    pub open spec fn spec_rank(self) -> ItalianRank {
        self.spec_card().spec_rank()
    }

    /// The suit component, for use in specifications.
    pub open spec fn spec_suit(self) -> Suit {
        self.spec_card().spec_suit()
    }

    /// The card wrapping `card`, for use in specifications.
    pub closed spec fn spec_from(card: ItalianCard) -> TressetteCard {
        TressetteCard { card }
    }

    /// `spec_from` wraps exactly the card it is given.
    pub proof fn lemma_spec_from(card: ItalianCard)
        ensures
            TressetteCard::spec_from(card).spec_card() == card,
    {
    }

    /// Generates a new `TressetteCard` starting from an `ItalianRank` and
    /// a `Suit`.
    pub fn new(rank: ItalianRank, suit: Suit) -> (c: Self)
        ensures
            c.spec_rank() == rank,
            c.spec_suit() == suit,
    {
        let card = ItalianCard::new(rank, suit);
        TressetteCard { card }
    }

    /// The underlying Italian card.
    pub fn card(&self) -> (c: ItalianCard)
        ensures
            c == self.spec_card(),
    {
        self.card
    }

    /// The rank of the card.
    pub fn rank(&self) -> (r: ItalianRank)
        ensures
            r == self.spec_rank(),
    {
        self.card.rank()
    }

    /// The suit of the card.
    pub fn suit(&self) -> (s: Suit)
        ensures
            s == self.spec_suit(),
    {
        self.card.suit()
    }

    /// The scoring weight of the card, in thirds of a point: the verified
    /// integer form of `value`.
    pub fn value_thirds(&self) -> (v: u32)
        ensures
            v as int == rank_value(self.spec_rank()),
    {
        match self.card.rank() {
            ItalianRank::Ace => 3,
            ItalianRank::Two
            | ItalianRank::Three
            | ItalianRank::King
            | ItalianRank::Knight
            | ItalianRank::Jack => 1,
            ItalianRank::Four | ItalianRank::Five | ItalianRank::Six | ItalianRank::Seven => 0,
        }
    }

    /// Gets the value of the card by the rules of the Tressette game, as an
    /// exact fraction of a point:
    /// - Ace = `3/3`
    /// - 2, 3 and figures = `1/3`
    /// - the rest = `0/3`
    ///
    /// The fraction equals `value_thirds` thirds; point totals stay exact
    /// rational values, never floating point.
    pub fn value(&self) -> (r: Rational32)
        ensures
            r == thirds_ratio(rank_value(self.spec_rank())),
    {
        let v = self.value_thirds();
        proof {
            assert(v <= 3);
        }
        thirds_to_rational(v)
    }
}

/// Tressette cards are ordered by ranking position alone, suits ignored:
/// two cards of equal rank compare `Equal` even when their suits differ.
/// The engine only ever compares cards of the leading suit, where the
/// order is strict.
impl PartialOrd for TressetteCard {
    fn partial_cmp(&self, other: &Self) -> (r: Option<core::cmp::Ordering>) {
        let a = TressetteGame::rank_of(self);
        let b = TressetteGame::rank_of(other);
        if a < b {
            Some(core::cmp::Ordering::Less)
        } else if a == b {
            Some(core::cmp::Ordering::Equal)
        } else {
            Some(core::cmp::Ordering::Greater)
        }
    }
}

impl vstd::std_specs::cmp::PartialOrdSpecImpl for TressetteCard {
    open spec fn obeys_partial_cmp_spec() -> bool {
        true
    }

    open spec fn partial_cmp_spec(&self, other: &Self) -> Option<core::cmp::Ordering> {
        if rank_position(self.spec_rank()) < rank_position(other.spec_rank()) {
            Some(core::cmp::Ordering::Less)
        } else if rank_position(self.spec_rank()) == rank_position(other.spec_rank()) {
            Some(core::cmp::Ordering::Equal)
        } else {
            Some(core::cmp::Ordering::Greater)
        }
    }
}

impl core::ops::Deref for TressetteCard {
    type Target = ItalianCard;

    /// A card dereferences to its underlying Italian card.
    fn deref(&self) -> (r: &ItalianCard)
        ensures
            *r == self.spec_card(),
    {
        &self.card
    }
}

impl From<ItalianCard> for TressetteCard {
    fn from(value: ItalianCard) -> (c: Self) {
        TressetteCard { card: value }
    }
}

impl vstd::std_specs::convert::FromSpecImpl<ItalianCard> for TressetteCard {
    open spec fn obeys_from_spec() -> bool {
        true
    }

    open spec fn from_spec(v: ItalianCard) -> TressetteCard {
        TressetteCard::spec_from(v)
    }
}

impl TrickTakingGame for TressetteGame {
    type CardType = TressetteCard;

    type SuitType = Suit;

    open spec fn spec_tricks() -> int {
        10
    }

    open spec fn spec_suit(c: TressetteCard) -> Suit {
        c.spec_suit()
    }

    open spec fn spec_rank(c: TressetteCard) -> int {
        rank_position(c.spec_rank())
    }

    open spec fn spec_value(c: TressetteCard) -> int {
        rank_value(c.spec_rank())
    }

    open spec fn spec_last_trick_bonus() -> int {
        3
    }

    open spec fn spec_win_threshold() -> int {
        SCORE_TO_WIN_THIRDS as int
    }

    open spec fn spec_side(seat: int) -> int {
        seat % 2
    }

    proof fn lemma_rank_strict(a: TressetteCard, b: TressetteCard) {
        assert(a.spec_rank() == b.spec_rank());
        crate::cards::lemma_card_eq(a.spec_card(), b.spec_card());
    }

    proof fn lemma_bounds() {
    }

    fn tricks() -> usize {
        10
    }

    fn suit_of(c: &TressetteCard) -> Suit {
        c.suit()
    }

    fn rank_of(c: &TressetteCard) -> usize {
        match c.rank() {
            ItalianRank::Four => 0,
            ItalianRank::Five => 1,
            ItalianRank::Six => 2,
            ItalianRank::Seven => 3,
            ItalianRank::Jack => 4,
            ItalianRank::Knight => 5,
            ItalianRank::King => 6,
            ItalianRank::Ace => 7,
            ItalianRank::Two => 8,
            ItalianRank::Three => 9,
        }
    }

    fn value_of(c: &TressetteCard) -> u32 {
        c.value_thirds()
    }

    fn last_trick_bonus() -> u32 {
        3
    }

    fn win_threshold() -> u64 {
        SCORE_TO_WIN_THIRDS
    }

    fn side_of(seat: usize) -> usize {
        seat % 2
    }

    fn cards_equal(a: &TressetteCard, b: &TressetteCard) -> bool {
        a == b
    }

    fn suits_equal(a: &Suit, b: &Suit) -> bool {
        a == b
    }
}

#[verifier::external_type_specification]
#[verifier::external_body]
#[verifier::reject_recursive_types(T)]
pub struct ExRatio<T>(num_rational::Ratio<T>);

/// The rational that `num_rational::Ratio::new` builds from `thirds` over
/// the denominator `3`: a function of `thirds` alone, named rather than
/// spelled out, so contracts can pin which fraction a card's value is.
pub uninterp spec fn thirds_ratio(thirds: int) -> Rational32;

/// Relies on `num_rational::Ratio::new`: builds the exact fraction
/// `thirds / 3`, reduced to lowest terms. The denominator is the nonzero
/// constant `3`, so the call cannot panic; the numerator is kept within
/// `i32` by the precondition.
#[verifier::external_body]
fn thirds_to_rational(thirds: u32) -> (r: Rational32)
    requires
        thirds <= 0x7fffffff,
    ensures
        r == thirds_ratio(thirds as int),
{
    Rational32::new(thirds as i32, 3)
}

} // verus!

