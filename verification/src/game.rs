//! The match loop state: running per-side score totals and the dealer
//! rotation that carries the first-lead advantage around the table.

use crate::rules::TrickTakingGame;
use crate::seats::PlayerId;
use vstd::prelude::*;

verus! {

/// Running state of a match: the per-side totals, in thirds of a point,
/// and the seat that deals the next hand. Hand scores are appended one at
/// a time; the dealer rotates one seat per hand so the first-lead
/// advantage cycles deterministically through all seats.
pub struct MatchScore {
    scores: (u64, u64),
    dealer: PlayerId<4>,
}

impl MatchScore {
    /// The running per-side totals, in thirds of a point.
    pub closed spec fn spec_scores(self) -> (u64, u64) {
        self.scores
    }

    /// The seat dealing the next hand.
    pub closed spec fn spec_dealer(self) -> int {
        self.dealer@
    }

    /// A fresh match: both sides at zero, `first_dealer` deals first.
    pub fn new(first_dealer: PlayerId<4>) -> (m: Self)
        ensures
            m.spec_scores() == (0u64, 0u64),
            m.spec_dealer() == first_dealer@,
    {
        MatchScore { scores: (0, 0), dealer: first_dealer }
    }

    /// The running per-side totals, in thirds of a point.
    pub fn scores(&self) -> (s: (u64, u64))
        ensures
            s == self.spec_scores(),
    {
        self.scores
    }

    /// The seat dealing the next hand.
    pub fn dealer(&self) -> (d: PlayerId<4>)
        ensures
            d@ == self.spec_dealer(),
    {
        self.dealer
    }

    /// Records a finished hand's per-side score delta and passes the deal
    /// one seat along the rotation.
    pub fn record_hand(&mut self, delta: (u64, u64))
        requires
            old(self).spec_scores().0 + delta.0 <= u64::MAX,
            old(self).spec_scores().1 + delta.1 <= u64::MAX,
        ensures
            final(self).spec_scores().0 == old(self).spec_scores().0 + delta.0,
            final(self).spec_scores().1 == old(self).spec_scores().1 + delta.1,
            final(self).spec_dealer() == (old(self).spec_dealer() + 1) % 4,
    {
        self.scores = (self.scores.0 + delta.0, self.scores.1 + delta.1);
        self.dealer.increment();
    }

    /// Whether the rule set's win threshold has been reached by at least
    /// one side, ending the match.
    pub fn is_over<G: TrickTakingGame>(&self) -> (b: bool)
        ensures
            b <==> (self.spec_scores().0 as int >= G::spec_win_threshold()
                || self.spec_scores().1 as int >= G::spec_win_threshold()),
    {
        G::is_match_over(self.scores)
    }

    /// The side currently ahead — `0` or `1` — or `None` on a tie. Once
    /// `is_over` holds this is the winning side; when both sides cross the
    /// threshold in the same hand with equal totals, the match has no
    /// winner and the driver plays a further hand to break the tie.
    pub fn leading_side(&self) -> (w: Option<usize>)
        ensures
            match w {
                Some(side) => (side == 0 && self.spec_scores().0 > self.spec_scores().1) || (
                side == 1 && self.spec_scores().1 > self.spec_scores().0),
                None => self.spec_scores().0 == self.spec_scores().1,
            },
    {
        if self.scores.0 > self.scores.1 {
            Some(0)
        } else if self.scores.1 > self.scores.0 {
            Some(1)
        } else {
            None
        }
    }
}

} // verus!
