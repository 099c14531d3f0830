//! The in-progress trick accumulator and the immutable finished-trick
//! record it resolves to.

use crate::rules::{winning_seat, TrickTakingGame, PLAYERS};
use crate::seats::PlayerId;
use vstd::prelude::*;

verus! {

/// Rejection of a card that already sits in the current trick.
#[derive(Clone, Copy, Debug, PartialEq, Eq, Structural)]
pub struct DuplicateCardError;

/// Mutable accumulator of at most four plays for the current trick: one
/// optional slot per seat, the seat that led, and the seat to play next.
pub struct OngoingTrick<G: TrickTakingGame> {
    slots: Vec<Option<G::CardType>>,
    first_to_play: PlayerId<4>,
    next_to_play: PlayerId<4>,
}

/// Immutable record of a finished trick: the four cards in seat order,
/// the seat that led, and the taker the rule set determined. Its only
/// constructor is `OngoingTrick::finish`.
pub struct Trick<G: TrickTakingGame> {
    cards: Vec<G::CardType>,
    first_to_play: PlayerId<4>,
    taker: PlayerId<4>,
}

impl<G: TrickTakingGame> OngoingTrick<G> {
    /// Per-seat slots: entry `s` holds the card seat `s` has played, if any.
    pub closed spec fn spec_slots(self) -> Seq<Option<G::CardType>> {
        self.slots@
    }

    /// The seat that led the trick.
    pub closed spec fn spec_first(self) -> int {
        self.first_to_play@
    }

    /// The seat whose turn it is.
    pub closed spec fn spec_next(self) -> int {
        self.next_to_play@
    }

    /// Number of plays accumulated so far, read off the rotation: the turn
    /// marker has moved `plays()` seats past the leader.
    pub open spec fn plays(self) -> int {
        if self.spec_next() != self.spec_first() {
            (self.spec_next() - self.spec_first()) % 4
        } else if 0 <= self.spec_first() < self.spec_slots().len() && self.spec_slots()[self.spec_first()] is Some {
            4
        } else {
            0
        }
    }

    /// Well-formedness: four slots, of which the occupied ones are exactly
    /// the cyclic window of `plays()` seats starting at the leader, and no
    /// two occupied slots hold equal cards.
    pub open spec fn wf(self) -> bool {
        &&& self.spec_slots().len() == 4
        &&& 0 <= self.spec_first() < 4
        &&& 0 <= self.spec_next() < 4
        &&& forall|j: int|
            0 <= j < 4 ==> ((#[trigger] self.spec_slots()[(self.spec_first() + j) % 4]) is Some
                <==> j < self.plays())
        &&& forall|a: int, b: int|
            0 <= a < b < 4 && self.spec_slots()[a] is Some && self.spec_slots()[b] is Some
                ==> (#[trigger] self.spec_slots()[a])->0 != (#[trigger] self.spec_slots()[b])->0
    }

    /// Whether some occupied slot holds `c`.
    pub open spec fn holds(self, c: G::CardType) -> bool {
        exists|s: int| 0 <= s < 4 && self.spec_slots()[s] == Some(c)
    }

    /// A fresh trick: all slots empty, `first_to_play` leads and plays next.
    pub fn new(first_to_play: PlayerId<4>) -> (t: Self)
        ensures
            t.wf(),
            t.plays() == 0,
            t.spec_first() == first_to_play@,
            t.spec_next() == first_to_play@,
            forall|s: int| 0 <= s < 4 ==> #[trigger] t.spec_slots()[s] is None,
    {
        proof {
            use_type_invariant(&first_to_play);
        }
        let mut slots: Vec<Option<G::CardType>> = Vec::new();
        slots.push(None);
        slots.push(None);
        slots.push(None);
        slots.push(None);
        OngoingTrick { slots, first_to_play, next_to_play: first_to_play }
    }

    /// The seat that led the trick.
    pub fn first_to_play(&self) -> (p: PlayerId<4>)
        ensures
            p@ == self.spec_first(),
    {
        self.first_to_play
    }

    /// The seat whose turn it is.
    pub fn next_to_play(&self) -> (p: PlayerId<4>)
        ensures
            p@ == self.spec_next(),
    {
        self.next_to_play
    }

    /// Whether all four seats have played.
    pub fn is_full(&self) -> (b: bool)
        requires
            self.wf(),
        ensures
            b <==> self.plays() == 4,
    {
        let f = self.first_to_play.get();
        self.next_to_play.get() == f && self.slots[f].is_some()
    }

    /// Number of plays accumulated so far.
    pub fn play_count(&self) -> (n: usize)
        requires
            self.wf(),
        ensures
            n == self.plays(),
    {
        let f = self.first_to_play.get();
        let nx = self.next_to_play.get();
        if nx != f {
            proof {
                vstd::arithmetic::div_mod::lemma_mod_multiples_vanish(
                    1,
                    self.spec_next() - self.spec_first(),
                    4,
                );
                vstd::arithmetic::div_mod::lemma_small_mod((nx + 4 - f) as nat % 4, 4);
            }
            (nx + 4 - f) % 4
        } else if self.slots[f].is_some() {
            4
        } else {
            0
        }
    }

    /// The card seat `seat` has played into the trick, if any.
    pub fn slot(&self, seat: PlayerId<4>) -> (c: Option<G::CardType>)
        requires
            self.wf(),
        ensures
            c == self.spec_slots()[seat@],
    {
        self.slots[seat.get()]
    }

    /// Plays `card` for the seat whose turn it is. The play is rejected —
    /// with the trick left unchanged, so the turn can be retried — exactly
    /// when an occupied slot already holds an equal card; otherwise the
    /// card fills `next_to_play`'s slot and the turn advances one seat.
    pub fn play(&mut self, card: G::CardType) -> (r: Result<(), DuplicateCardError>)
        requires
            old(self).wf(),
            old(self).plays() < 4,
        ensures
            final(self).wf(),
            match r {
                Ok(()) => {
                    &&& !old(self).holds(card)
                    &&& final(self).holds(card)
                    &&& final(self).spec_slots() == old(self).spec_slots().update(
                        old(self).spec_next(),
                        Some(card),
                    )
                    &&& final(self).spec_first() == old(self).spec_first()
                    &&& final(self).spec_next() == (old(self).spec_next() + 1) % 4
                    &&& final(self).plays() == old(self).plays() + 1
                },
                Err(_) => {
                    &&& old(self).holds(card)
                    &&& *final(self) == *old(self)
                },
            },
            play_transition(*old(self), card, *final(self), r is Err),
    {
        let mut s: usize = 0;
        while s < PLAYERS
            invariant
                self.wf(),
                s <= 4,
                forall|k: int| 0 <= k < s ==> #[trigger] self.spec_slots()[k] != Some(card),
            decreases PLAYERS - s,
        {
            match self.slots[s] {
                Some(c) => {
                    if G::cards_equal(&c, &card) {
                        return Err(DuplicateCardError);
                    }
                },
                None => {},
            }
            s = s + 1;
        }
        let ghost prev = *self;
        let n = self.next_to_play.get();
        self.slots[n] = Some(card);
        self.next_to_play.increment();
        proof {
            lemma_play_transition::<G>(prev, *self, card);
        }
        Ok(())
    }

    /// Read-only resolution of the trick: `None` while any seat has yet to
    /// play; once all four slots are occupied, the finished record of the
    /// four cards together with the taker the rule set determines.
    pub fn finish(&self) -> (r: Option<Trick<G>>)
        requires
            self.wf(),
        ensures
            r is Some <==> self.plays() == 4,
            r is Some ==> finishes(*self, r->0),
    {
        if !self.is_full() {
            return None;
        }
        proof {
            lemma_full_occupied::<G>(*self);
        }
        let mut cards: Vec<G::CardType> = Vec::new();
        let mut s: usize = 0;
        while s < PLAYERS
            invariant
                self.wf(),
                self.plays() == 4,
                forall|k: int| 0 <= k < 4 ==> #[trigger] self.spec_slots()[k] is Some,
                s <= 4,
                cards@.len() == s,
                forall|k: int| 0 <= k < s ==> self.spec_slots()[k] == Some(#[trigger] cards@[k]),
            decreases PLAYERS - s,
        {
            match self.slots[s] {
                Some(c) => cards.push(c),
                None => {
                    proof {
                        assert(false);
                    }
                },
            }
            s = s + 1;
        }
        let taker = G::determine_taker(&cards, self.first_to_play);
        Some(Trick { cards, first_to_play: self.first_to_play, taker })
    }
}

/// One `play` call, seen as a relation between the trick before and the
/// trick after: the play is rejected exactly when an occupied slot already
/// holds an equal card, a rejection changes nothing, and an acceptance
/// fills the slot of the seat in turn and advances the turn one seat.
pub open spec fn play_transition<G: TrickTakingGame>(
    pre: OngoingTrick<G>,
    card: G::CardType,
    post: OngoingTrick<G>,
    rejected: bool,
) -> bool {
    &&& (rejected <==> pre.holds(card))
    &&& (rejected ==> post == pre)
    &&& (!rejected ==> {
        &&& post.spec_slots() == pre.spec_slots().update(pre.spec_next(), Some(card))
        &&& post.spec_first() == pre.spec_first()
        &&& post.spec_next() == (pre.spec_next() + 1) % 4
        &&& post.plays() == pre.plays() + 1
    })
}

/// In a well-formed trick the seat in turn sits `plays()` seats past the
/// leader, so while the trick is not full its slot is still empty.
proof fn lemma_next_slot_empty<G: TrickTakingGame>(ot: OngoingTrick<G>)
    requires
        ot.wf(),
        ot.plays() < 4,
    ensures
        ot.spec_slots()[ot.spec_next()] is None,
{
    let first = ot.spec_first();
    let p = ot.plays();
    let n = ot.spec_next();
    assert(n == (first + p) % 4) by {
        if n != first {
            vstd::arithmetic::div_mod::lemma_mod_multiples_vanish(1, n - first, 4);
            vstd::arithmetic::div_mod::lemma_small_mod(n as nat, 4);
            assert((first + ((n - first) % 4)) % 4 == n);
        } else {
            vstd::arithmetic::div_mod::lemma_small_mod(n as nat, 4);
        }
    }
    assert(ot.spec_slots()[(first + p) % 4] is Some <==> p < ot.plays());
}

/// A trick with no plays yet has every slot empty.
proof fn lemma_empty_slots<G: TrickTakingGame>(ot: OngoingTrick<G>)
    requires
        ot.wf(),
        ot.plays() == 0,
    ensures
        forall|s: int| 0 <= s < 4 ==> #[trigger] ot.spec_slots()[s] is None,
{
    let first = ot.spec_first();
    assert forall|s: int| 0 <= s < 4 implies #[trigger] ot.spec_slots()[s] is None by {
        let j = if s >= first {
            s - first
        } else {
            s - first + 4
        };
        assert(0 <= j < 4);
        assert((first + j) % 4 == s) by {
            if s >= first {
                vstd::arithmetic::div_mod::lemma_small_mod(s as nat, 4);
            } else {
                vstd::arithmetic::div_mod::lemma_mod_multiples_vanish(1, s, 4);
                vstd::arithmetic::div_mod::lemma_small_mod(s as nat, 4);
            }
        }
        assert(!(ot.spec_slots()[(first + j) % 4] is Some));
    }
}

/// Occupied slots form the cyclic window `[first, first + plays)`; when the
/// trick is full, that window covers every seat.
proof fn lemma_full_occupied<G: TrickTakingGame>(ot: OngoingTrick<G>)
    requires
        ot.wf(),
        ot.plays() == 4,
    ensures
        forall|s: int| 0 <= s < 4 ==> #[trigger] ot.spec_slots()[s] is Some,
{
    let first = ot.spec_first();
    assert forall|s: int| 0 <= s < 4 implies #[trigger] ot.spec_slots()[s] is Some by {
        let j = if s >= first {
            s - first
        } else {
            s - first + 4
        };
        assert(0 <= j < 4);
        assert((first + j) % 4 == s) by {
            if s >= first {
                vstd::arithmetic::div_mod::lemma_small_mod(s as nat, 4);
            } else {
                vstd::arithmetic::div_mod::lemma_mod_multiples_vanish(1, s, 4);
                vstd::arithmetic::div_mod::lemma_small_mod(s as nat, 4);
            }
        }
        assert(ot.spec_slots()[(first + j) % 4] is Some);
    }
}

/// What one successful play does to a well-formed trick: the updated slot
/// extends the occupied window by one, the turn marker moves with it, and
/// every invariant is preserved.
proof fn lemma_play_transition<G: TrickTakingGame>(
    prev: OngoingTrick<G>,
    cur: OngoingTrick<G>,
    card: G::CardType,
)
    requires
        prev.wf(),
        prev.plays() < 4,
        forall|k: int| 0 <= k < 4 ==> #[trigger] prev.spec_slots()[k] != Some(card),
        cur.spec_slots() == prev.spec_slots().update(prev.spec_next(), Some(card)),
        cur.spec_first() == prev.spec_first(),
        cur.spec_next() == (prev.spec_next() + 1) % 4,
    ensures
        cur.wf(),
        cur.plays() == prev.plays() + 1,
        cur.holds(card),
        !prev.holds(card),
    decreases 0nat,
{
    let first = prev.spec_first();
    let p = prev.plays();
    let n = prev.spec_next();
    // The rotation relation: the turn marker sits `p` seats past the leader.
    assert(n == (first + p) % 4) by {
        if n != first {
            vstd::arithmetic::div_mod::lemma_mod_multiples_vanish(1, n - first, 4);
            vstd::arithmetic::div_mod::lemma_small_mod(n as nat, 4);
            assert((first + ((n - first) % 4)) % 4 == n);
        } else {
            vstd::arithmetic::div_mod::lemma_small_mod(n as nat, 4);
        }
    }
    assert(prev.spec_slots()[n] is None) by {
        assert(prev.spec_slots()[(first + p) % 4] is Some <==> p < prev.plays());
    }
    assert(0 <= n < 4);
    assert(cur.spec_slots()[n] == Some(card));
    // Each window offset addresses a distinct seat.
    assert forall|j: int| 0 <= j < 4 implies #[trigger] ((first + j) % 4) == if first + j < 4 {
        first + j
    } else {
        first + j - 4
    } by {
        if first + j < 4 {
            vstd::arithmetic::div_mod::lemma_small_mod((first + j) as nat, 4);
        } else {
            vstd::arithmetic::div_mod::lemma_mod_multiples_vanish(1, first + j - 4, 4);
            vstd::arithmetic::div_mod::lemma_small_mod((first + j - 4) as nat, 4);
        }
    }
    assert(cur.plays() == p + 1) by {
        if p + 1 < 4 {
            assert(cur.spec_next() != first) by {
                assert((first + (p + 1)) % 4 == cur.spec_next());
            }
            vstd::arithmetic::div_mod::lemma_mod_multiples_vanish(1, p + 1, 4);
            vstd::arithmetic::div_mod::lemma_small_mod((p + 1) as nat, 4);
        } else {
            assert((first + 4) % 4 == first) by {
                vstd::arithmetic::div_mod::lemma_mod_multiples_vanish(1, first, 4);
                vstd::arithmetic::div_mod::lemma_small_mod(first as nat, 4);
            }
            assert(cur.spec_next() == first);
            assert((first + 0) % 4 == first) by {
                vstd::arithmetic::div_mod::lemma_small_mod(first as nat, 4);
            }
            assert(prev.spec_slots()[(first + 0) % 4] is Some);
            assert(cur.spec_slots()[first] is Some);
        }
    }
}

impl<G: TrickTakingGame> Trick<G> {
    #[verifier::type_invariant]
    spec fn four_cards(self) -> bool {
        self.cards@.len() == 4
    }

    /// The four cards of the trick, in seat order.
    pub closed spec fn spec_cards(self) -> Seq<G::CardType> {
        self.cards@
    }

    /// The seat that led the trick.
    pub closed spec fn spec_first(self) -> int {
        self.first_to_play@
    }

    /// The seat that took the trick.
    pub closed spec fn spec_taker(self) -> int {
        self.taker@
    }

    /// The seat that took the trick.
    pub fn taker(&self) -> (p: PlayerId<4>)
        ensures
            p@ == self.spec_taker(),
    {
        self.taker
    }

    /// The seat that led the trick.
    pub fn first_to_play(&self) -> (p: PlayerId<4>)
        ensures
            p@ == self.spec_first(),
    {
        self.first_to_play
    }

    /// The four cards of the trick, in seat order.
    pub fn cards(&self) -> (c: &Vec<G::CardType>)
        ensures
            c@ == self.spec_cards(),
            c@.len() == 4,
    {
        proof {
            use_type_invariant(&*self);
        }
        &self.cards
    }

    /// The card seat `seat` played.
    pub fn card(&self, seat: PlayerId<4>) -> (c: G::CardType)
        ensures
            c == self.spec_cards()[seat@],
    {
        proof {
            use_type_invariant(&*self);
        }
        self.cards[seat.get()]
    }

    /// The card the trick was taken with.
    pub fn taken_with(&self) -> (c: G::CardType)
        ensures
            c == self.spec_cards()[self.spec_taker()],
    {
        proof {
            use_type_invariant(&*self);
        }
        self.cards[self.taker.get()]
    }
}

/// The finished record `t` arises from the fully played trick `ot`: the
/// cards are the slots in seat order, the lead carries over, and the taker
/// satisfies the winning-seat condition.
pub open spec fn finishes<G: TrickTakingGame>(ot: OngoingTrick<G>, t: Trick<G>) -> bool {
    &&& t.spec_cards().len() == 4
    &&& forall|s: int| 0 <= s < 4 ==> #[trigger] ot.spec_slots()[s] == Some(t.spec_cards()[s])
    &&& t.spec_first() == ot.spec_first()
    &&& winning_seat::<G>(t.spec_cards(), t.spec_first(), t.spec_taker())
}

/// Stepping through a chain of `play` calls on a fresh trick, where
/// `cards[d]` is the only repetition: up to step `j`, exactly the play at
/// `d` was rejected, the table holds exactly the accepted cards so far,
/// and the play count is the number of accepted cards.
proof fn lemma_duplicate_chain<G: TrickTakingGame>(
    cards: Seq<G::CardType>,
    states: Seq<OngoingTrick<G>>,
    rejected: Seq<bool>,
    d: int,
    j: int,
)
    requires
        cards.len() == 4,
        states.len() == 5,
        rejected.len() == 4,
        forall|i: int| 0 <= i <= 4 ==> (#[trigger] states[i]).wf(),
        states[0].plays() == 0,
        forall|i: int|
            0 <= i < 4 ==> #[trigger] play_transition::<G>(states[i], cards[i], states[i + 1], rejected[i]),
        0 <= d < 4,
        exists|i: int| 0 <= i < d && cards[i] == cards[d],
        forall|i: int, k: int| 0 <= i < k < 4 && cards[i] == cards[k] ==> k == d,
        0 <= j <= 4,
    ensures
        states[j].plays() == j - (if d < j { 1int } else { 0int }),
        forall|c: G::CardType| #[trigger] states[j].holds(c) <==> exists|i: int|
            0 <= i < j && i != d && cards[i] == c,
        forall|i: int| 0 <= i < j ==> ((#[trigger] rejected[i]) <==> i == d),
    decreases j,
{
    if j == 0 {
        lemma_empty_slots::<G>(states[0]);
        assert forall|c: G::CardType| !(#[trigger] states[0].holds(c)) by {
            assert(forall|s: int| 0 <= s < 4 ==> #[trigger] states[0].spec_slots()[s] is None);
        }
    } else {
        lemma_duplicate_chain::<G>(cards, states, rejected, d, j - 1);
        let idx = j - 1;
        let pre = states[idx];
        let post = states[j];
        let c = cards[idx];
        assert(play_transition::<G>(states[idx], cards[idx], states[idx + 1], rejected[idx]));
        assert(play_transition::<G>(pre, c, post, rejected[idx]));
        // Whether this very play is the one that is rejected.
        if idx == d {
            let i0 = choose|i: int| 0 <= i < d && cards[i] == cards[d];
            assert(pre.holds(c)) by {
                assert(cards[i0] == c && i0 != d && 0 <= i0 < idx);
            }
            assert(rejected[idx]);
            assert(post == pre);
            assert forall|x: G::CardType| #[trigger] post.holds(x) <==> exists|i: int|
                0 <= i < j && i != d && cards[i] == x by {
                assert(post.holds(x) <==> exists|i: int| 0 <= i < idx && i != d && cards[i] == x);
            }
        } else {
            assert(!pre.holds(c)) by {
                if exists|i: int| 0 <= i < idx && i != d && cards[i] == c {
                    let i0 = choose|i: int| 0 <= i < idx && i != d && cards[i] == c;
                    assert(cards[i0] == cards[idx] && i0 < idx);
                    assert(idx == d);
                    assert(false);
                }
            }
            assert(!rejected[idx]);
            lemma_next_slot_empty::<G>(pre);
            // The accepted card lands in the empty turn slot; nothing else moves.
            assert forall|x: G::CardType| #[trigger] post.holds(x) <==> (pre.holds(x) || x
                == c) by {
                if post.holds(x) {
                    let s = choose|s: int| 0 <= s < 4 && post.spec_slots()[s] == Some(x);
                    if s == pre.spec_next() {
                        assert(x == c);
                    } else {
                        assert(pre.spec_slots()[s] == Some(x));
                    }
                }
                if x == c {
                    assert(post.spec_slots()[pre.spec_next()] == Some(x));
                }
                if pre.holds(x) {
                    let s = choose|s: int| 0 <= s < 4 && pre.spec_slots()[s] == Some(x);
                    assert(s != pre.spec_next());
                    assert(post.spec_slots()[s] == Some(x));
                }
            }
        }
    }
}

/// Law: four cards among which exactly one — `cards[d]` — repeats an
/// earlier card, played into a fresh well-formed trick, are rejected
/// exactly once, at the point the duplicate is introduced; every other
/// card is accepted, so the trick never reaches four plays and `finish`
/// keeps answering "incomplete". A sequence with more than one repetition
/// (two equal pairs, or a card dealt three times) is rejected at each
/// repetition and lies outside this statement.
pub proof fn lemma_duplicate_rejected_once<G: TrickTakingGame>(
    cards: Seq<G::CardType>,
    states: Seq<OngoingTrick<G>>,
    rejected: Seq<bool>,
    d: int,
)
    requires
        cards.len() == 4,
        states.len() == 5,
        rejected.len() == 4,
        forall|i: int| 0 <= i <= 4 ==> (#[trigger] states[i]).wf(),
        states[0].plays() == 0,
        forall|i: int|
            0 <= i < 4 ==> #[trigger] play_transition::<G>(states[i], cards[i], states[i + 1], rejected[i]),
        0 <= d < 4,
        exists|i: int| 0 <= i < d && cards[i] == cards[d],
        forall|i: int, k: int| 0 <= i < k < 4 && cards[i] == cards[k] ==> k == d,
    ensures
        forall|i: int| 0 <= i < 4 ==> ((#[trigger] rejected[i]) <==> i == d),
        forall|j: int| 0 <= j <= 4 ==> (#[trigger] states[j]).plays() < 4,
        states[4].plays() == 3,
{
    lemma_duplicate_chain::<G>(cards, states, rejected, d, 4);
    assert forall|j: int| 0 <= j <= 4 implies (#[trigger] states[j]).plays() < 4 by {
        lemma_duplicate_chain::<G>(cards, states, rejected, d, j);
    }
}

/// Law: finishing one fully played trick twice yields records that agree
/// on the cards, on the lead, and on the taker — the strict ranking and
/// the no-duplicates invariant leave no second resolution.
pub proof fn lemma_finish_deterministic<G: TrickTakingGame>(
    ot: OngoingTrick<G>,
    t1: Trick<G>,
    t2: Trick<G>,
)
    requires
        ot.wf(),
        finishes(ot, t1),
        finishes(ot, t2),
    ensures
        t1.spec_cards() == t2.spec_cards(),
        t1.spec_first() == t2.spec_first(),
        t1.spec_taker() == t2.spec_taker(),
{
    assert forall|s: int| 0 <= s < 4 implies t1.spec_cards()[s] == t2.spec_cards()[s] by {
        assert(ot.spec_slots()[s] == Some(t1.spec_cards()[s]));
        assert(ot.spec_slots()[s] == Some(t2.spec_cards()[s]));
    }
    assert(t1.spec_cards() =~= t2.spec_cards());
    let cards = t1.spec_cards();
    let first = t1.spec_first();
    let k1 = t1.spec_taker();
    let k2 = t2.spec_taker();
    assert(G::spec_rank(cards[k1]) <= G::spec_rank(cards[k2]));
    assert(G::spec_rank(cards[k2]) <= G::spec_rank(cards[k1]));
    G::lemma_rank_strict(cards[k1], cards[k2]);
    if k1 != k2 {
        let a = if k1 < k2 {
            k1
        } else {
            k2
        };
        let b = if k1 < k2 {
            k2
        } else {
            k1
        };
        assert(ot.spec_slots()[a] == Some(cards[a]));
        assert(ot.spec_slots()[b] == Some(cards[b]));
        assert(false);
    }
}

} // verus!
