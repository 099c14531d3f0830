//! The Italian forty-card deck: suits, ranks, and cards.

use vstd::prelude::*;

verus! {

/// The four suits of an Italian forty-card deck.
#[derive(Clone, Copy, Debug, PartialEq, Eq, Structural, Hash)]
pub enum Suit {
    Hearts,
    Diamonds,
    Clubs,
    Spades,
}

/// The ten ranks of an Italian forty-card deck.
#[derive(Clone, Copy, Debug, PartialEq, Eq, Structural, Hash)]
pub enum ItalianRank {
    Ace,
    Two,
    Three,
    Four,
    Five,
    Six,
    Seven,
    Jack,
    Knight,
    King,
}

/// A card of the Italian forty-card deck: a rank together with a suit.
/// Two cards are equal exactly when both components are equal.
#[derive(Clone, Copy, Debug, PartialEq, Eq, Structural, Hash)]
pub struct ItalianCard {
    rank: ItalianRank,
    suit: Suit,
}

impl ItalianCard {
    /// The rank component, for use in specifications.
    pub closed spec fn spec_rank(self) -> ItalianRank {
        self.rank
    }

    /// The suit component, for use in specifications.
    pub closed spec fn spec_suit(self) -> Suit {
        self.suit
    }

    /// Builds the card with the given rank and suit.
    pub fn new(rank: ItalianRank, suit: Suit) -> (c: ItalianCard)
        ensures
            c.spec_rank() == rank,
            c.spec_suit() == suit,
    {
        ItalianCard { rank, suit }
    }

    /// The rank of the card.
    pub fn rank(&self) -> (r: ItalianRank)
        ensures
            r == self.spec_rank(),
    {
        self.rank
    }

    /// The suit of the card.
    pub fn suit(&self) -> (s: Suit)
        ensures
            s == self.spec_suit(),
    {
        self.suit
    }
}

/// Two cards that agree on rank and suit are the same card.
pub proof fn lemma_card_eq(a: ItalianCard, b: ItalianCard)
    requires
        a.spec_rank() == b.spec_rank(),
        a.spec_suit() == b.spec_suit(),
    ensures
        a == b,
{
}

} // verus!
