//! The hand: four players playing a fixed number of tricks in rotation,
//! with per-side scoring.

use crate::rules::{follow_suit, legal_plays, winning_seat, TrickTakingGame, PLAYERS};
use crate::seats::PlayerId;
use crate::tricks::{OngoingTrick, Trick};
use vstd::prelude::*;

verus! {

/// Rejection of an attempted play; the hand state is left unchanged, so
/// the same seat can be asked again for a corrected play.
#[derive(Clone, Copy, Debug, PartialEq, Eq, Structural)]
pub enum PlayError {
    /// It is another seat's turn.
    NotYourTurn,
    /// The seat does not hold the card it tried to play.
    CardNotHeld,
    /// The seat holds a card of the leading suit but played another suit.
    MustFollowSuit,
    /// A card equal to one already on the table was played.
    DuplicateCard,
}

/// A seat together with the cards it still holds.
pub struct Player<G: TrickTakingGame> {
    id: PlayerId<4>,
    hand: Vec<G::CardType>,
}

impl<G: TrickTakingGame> Player<G> {
    /// The seat this player occupies.
    pub closed spec fn spec_id(self) -> int {
        self.id@
    }

    /// The cards the player still holds.
    pub closed spec fn spec_hand(self) -> Seq<G::CardType> {
        self.hand@
    }

    /// A player at seat `id`, holding no cards yet.
    pub fn new(id: PlayerId<4>) -> (p: Self)
        ensures
            p.spec_id() == id@,
            p.spec_hand().len() == 0,
    {
        Player { id, hand: Vec::new() }
    }

    /// Deals `cards` to the player, replacing anything held.
    pub fn deal(&mut self, cards: Vec<G::CardType>)
        ensures
            final(self).spec_id() == old(self).spec_id(),
            final(self).spec_hand() == cards@,
    {
        self.hand = cards;
    }

    /// The seat this player occupies.
    pub fn id(&self) -> (p: PlayerId<4>)
        ensures
            p@ == self.spec_id(),
    {
        self.id
    }

    /// The cards the player still holds.
    pub fn hand(&self) -> (h: &Vec<G::CardType>)
        ensures
            h@ == self.spec_hand(),
    {
        &self.hand
    }

    /// Position of the first held card equal to `card`.
    fn find_card(&self, card: &G::CardType) -> (r: Option<usize>)
        ensures
            match r {
                Some(k) => {
                    &&& k < self.spec_hand().len()
                    &&& self.spec_hand()[k as int] == *card
                    &&& forall|j: int| 0 <= j < k ==> self.spec_hand()[j] != *card
                },
                None => forall|j: int| 0 <= j < self.spec_hand().len() ==> self.spec_hand()[j]
                    != *card,
            },
    {
        let mut k: usize = 0;
        while k < self.hand.len()
            invariant
                k <= self.spec_hand().len(),
                forall|j: int| 0 <= j < k ==> self.spec_hand()[j] != *card,
            decreases self.spec_hand().len() - k,
        {
            if G::cards_equal(&self.hand[k], card) {
                return Some(k);
            }
            k = k + 1;
        }
        None
    }

    /// Removes the held card at position `k`.
    fn remove_at(&mut self, k: usize)
        requires
            k < old(self).spec_hand().len(),
        ensures
            final(self).spec_id() == old(self).spec_id(),
            final(self).spec_hand() == old(self).spec_hand().remove(k as int),
    {
        self.hand.remove(k);
    }
}

/// Total scoring weight, in thirds of a point, of a list of cards.
pub open spec fn cards_value<G: TrickTakingGame>(cards: Seq<G::CardType>) -> int
    decreases cards.len(),
{
    if cards.len() == 0 {
        0
    } else {
        cards_value::<G>(cards.drop_last()) + G::spec_value(cards.last())
    }
}

/// Total, in thirds of a point, of the card values of the tricks taken by
/// `side` over `tricks`.
pub open spec fn side_score<G: TrickTakingGame>(tricks: Seq<Trick<G>>, side: int) -> int
    decreases tricks.len(),
{
    if tricks.len() == 0 {
        0
    } else {
        side_score::<G>(tricks.drop_last(), side) + if G::spec_side(tricks.last().spec_taker())
            == side {
            cards_value::<G>(tricks.last().spec_cards())
        } else {
            0
        }
    }
}

/// The full score of a hand for `side`, in thirds of a point: the card
/// values of the tricks the side took, plus the last-trick bonus when the
/// side took the final trick.
pub open spec fn hand_score<G: TrickTakingGame>(tricks: Seq<Trick<G>>, side: int) -> int {
    side_score::<G>(tricks, side) + if tricks.len() > 0 && G::spec_side(
        tricks.last().spec_taker(),
    ) == side {
        G::spec_last_trick_bonus()
    } else {
        0
    }
}

/// The state machine of one hand: the four players' remaining cards, the
/// trick being accumulated, and the tricks already resolved. Plays are
/// validated against whose turn it is, card ownership, and the
/// must-follow-suit rule; a fourth card resolves the trick and its taker
/// leads the next one, until the rule set's number of tricks is reached.
pub struct OngoingHand<G: TrickTakingGame> {
    players: Vec<Player<G>>,
    current: OngoingTrick<G>,
    completed: Vec<Trick<G>>,
}

impl<G: TrickTakingGame> OngoingHand<G> {
    /// The four players in seat order.
    pub closed spec fn spec_players(self) -> Seq<Player<G>> {
        self.players@
    }

    /// The trick currently being accumulated.
    pub closed spec fn spec_current(self) -> OngoingTrick<G> {
        self.current
    }

    /// The tricks already resolved, in play order.
    pub closed spec fn spec_completed(self) -> Seq<Trick<G>> {
        self.completed@
    }

    /// Whether all of the rule set's tricks have been resolved.
    pub open spec fn spec_complete(self) -> bool {
        self.spec_completed().len() == G::spec_tricks()
    }

    /// The leading suit of the current trick, once a card has been led.
    pub open spec fn spec_leading(self) -> Option<G::SuitType> {
        if self.spec_current().plays() > 0 {
            Some(
                G::spec_suit(
                    self.spec_current().spec_slots()[self.spec_current().spec_first()]->0,
                ),
            )
        } else {
            None
        }
    }

    /// Whether `seat` holds `card`.
    pub open spec fn player_holds(self, seat: int, card: G::CardType) -> bool {
        self.spec_players()[seat].spec_hand().contains(card)
    }

    /// Whether playing `card` would break the must-follow-suit rule for
    /// `seat`: a suit is leading, the seat could follow it, and the card
    /// does not.
    pub open spec fn breaks_suit(self, seat: int, card: G::CardType) -> bool {
        match self.spec_leading() {
            Option::Some(s) => G::spec_suit(card) != s && follow_suit::<G>(
                self.spec_players()[seat].spec_hand(),
                s,
            ).len() > 0,
            Option::None => false,
        }
    }

    /// Well-formedness: four players seated in order, a well-formed
    /// current trick that is never left full, and no more resolved tricks
    /// than the rule set plays.
    pub open spec fn wf(self) -> bool {
        &&& self.spec_players().len() == 4
        &&& forall|i: int| 0 <= i < 4 ==> (#[trigger] self.spec_players()[i]).spec_id() == i
        &&& self.spec_current().wf()
        &&& self.spec_completed().len() <= G::spec_tricks()
        &&& (self.spec_completed().len() < G::spec_tricks() ==> self.spec_current().plays() < 4)
        &&& (self.spec_completed().len() == G::spec_tricks() ==> self.spec_current().plays() == 0)
    }

    /// Starts a hand: seat `s` receives `hands[s]`, and `leader` leads the
    /// first trick. That the deal is card-unique and exhaustive — ten
    /// cards per seat in Tressette — is the dealing collaborator's
    /// guarantee; the state machine validates plays, not the deal.
    pub fn new(hands: Vec<Vec<G::CardType>>, leader: PlayerId<4>) -> (h: Self)
        requires
            hands@.len() == 4,
        ensures
            h.wf(),
            h.spec_completed().len() == 0,
            h.spec_current().plays() == 0,
            h.spec_current().spec_first() == leader@,
            forall|i: int| 0 <= i < 4 ==> (#[trigger] h.spec_players()[i]).spec_hand()
                == hands@[i]@,
    {
        proof {
            G::lemma_bounds();
        }
        let ghost dealt = hands@;
        let mut rest = hands;
        let mut players: Vec<Player<G>> = Vec::new();
        let mut i: usize = 0;
        while i < PLAYERS
            invariant
                i <= 4,
                rest@ =~= dealt.subrange(i as int, 4),
                dealt.len() == 4,
                players@.len() == i,
                forall|k: int| 0 <= k < i ==> (#[trigger] players@[k]).spec_id() == k,
                forall|k: int| 0 <= k < i ==> (#[trigger] players@[k]).spec_hand() == dealt[k]@,
            decreases 4 - i,
        {
            let cards = rest.remove(0);
            players.push(Player { id: PlayerId::<4>::from_index(i), hand: cards });
            proof {
                assert(rest@ =~= dealt.subrange(i + 1, 4));
            }
            i = i + 1;
        }
        OngoingHand { players, current: OngoingTrick::new(leader), completed: Vec::new() }
    }

    /// Whether all of the rule set's tricks have been resolved.
    pub fn is_complete(&self) -> (b: bool)
        requires
            self.wf(),
        ensures
            b <==> self.spec_complete(),
    {
        self.completed.len() == G::tricks()
    }

    /// The seat whose turn it is.
    pub fn next_to_play(&self) -> (p: PlayerId<4>)
        ensures
            p@ == self.spec_current().spec_next(),
    {
        self.current.next_to_play()
    }

    /// The tricks resolved so far, in play order.
    pub fn completed_tricks(&self) -> (t: &Vec<Trick<G>>)
        ensures
            t@ == self.spec_completed(),
    {
        &self.completed
    }

    /// The cards `seat` still holds.
    pub fn player_hand(&self, seat: PlayerId<4>) -> (h: &Vec<G::CardType>)
        requires
            self.wf(),
        ensures
            h@ == self.spec_players()[seat@].spec_hand(),
    {
        proof {
            use_type_invariant(&seat);
        }
        self.players[seat.get()].hand()
    }

    /// The leading suit of the current trick, once a card has been led.
    pub fn leading_suit(&self) -> (l: Option<G::SuitType>)
        requires
            self.wf(),
        ensures
            l == self.spec_leading(),
    {
        let c = self.current.play_count();
        if c > 0 {
            let first = self.current.first_to_play();
            proof {
                vstd::arithmetic::div_mod::lemma_small_mod(
                    self.spec_current().spec_first() as nat,
                    4,
                );
                assert(self.spec_current().spec_slots()[(self.spec_current().spec_first() + 0)
                    % 4] is Some);
            }
            match self.current.slot(first) {
                Some(card) => Some(G::suit_of(&card)),
                None => {
                    proof {
                        assert(false);
                    }
                    None
                },
            }
        } else {
            None
        }
    }

    /// The cards `seat` may legally play now.
    pub fn playable_cards(&self, seat: PlayerId<4>) -> (r: Vec<G::CardType>)
        requires
            self.wf(),
        ensures
            r@ == legal_plays::<G>(self.spec_players()[seat@].spec_hand(), self.spec_leading()),
    {
        proof {
            use_type_invariant(&seat);
        }
        let leading = self.leading_suit();
        crate::rules::playable::<G>(self.players[seat.get()].hand(), leading)
    }

    /// Validates and performs one play: `seat` plays `card` into the
    /// current trick. A rejected play leaves the whole hand unchanged and
    /// reports the first rule broken, checked in this order: it must be
    /// the seat's turn, the seat must hold the card, the card must follow
    /// the leading suit when the seat can, and it must not duplicate a
    /// card already on the table. An accepted play removes the card from
    /// the seat's hand; the fourth accepted play of a trick resolves it,
    /// records it, and has its taker lead the next trick.
    #[verifier::loop_isolation(false)]
    pub fn play(&mut self, seat: PlayerId<4>, card: G::CardType) -> (r: Result<(), PlayError>)
        requires
            old(self).wf(),
            !old(self).spec_complete(),
        ensures
            final(self).wf(),
            match r {
                Result::Err(e) => {
                    &&& *final(self) == *old(self)
                    &&& (e == PlayError::NotYourTurn <==> seat@ != old(self).spec_current().spec_next())
                    &&& (e == PlayError::CardNotHeld <==> seat@ == old(self).spec_current().spec_next()
                        && !old(self).player_holds(seat@, card))
                    &&& (e == PlayError::MustFollowSuit <==> seat@ == old(self).spec_current().spec_next()
                        && old(self).player_holds(seat@, card) && old(self).breaks_suit(seat@, card))
                    &&& (e == PlayError::DuplicateCard <==> seat@ == old(self).spec_current().spec_next()
                        && old(self).player_holds(seat@, card) && !old(self).breaks_suit(seat@, card)
                        && old(self).spec_current().holds(card))
                },
                Result::Ok(_) => {
                    &&& seat@ == old(self).spec_current().spec_next()
                    &&& old(self).player_holds(seat@, card)
                    &&& !old(self).breaks_suit(seat@, card)
                    &&& !old(self).spec_current().holds(card)
                    &&& exists|k: int|
                        {
                            &&& 0 <= k < old(self).spec_players()[seat@].spec_hand().len()
                            &&& old(self).spec_players()[seat@].spec_hand()[k] == card
                            &&& forall|j: int| 0 <= j < k ==> old(self).spec_players()[seat@].spec_hand()[j] != card
                            &&& final(self).spec_players()[seat@].spec_hand() == old(self).spec_players()[seat@].spec_hand().remove(k)
                        }
                    &&& forall|i: int| 0 <= i < 4 && i != seat@
                        ==> final(self).spec_players()[i] == old(self).spec_players()[i]
                    &&& if old(self).spec_current().plays() < 3 {
                        &&& final(self).spec_completed() == old(self).spec_completed()
                        &&& final(self).spec_current().spec_first() == old(self).spec_current().spec_first()
                        &&& final(self).spec_current().spec_slots() == old(self).spec_current().spec_slots().update(
                            old(self).spec_current().spec_next(),
                            Some(card),
                        )
                        &&& final(self).spec_current().plays() == old(self).spec_current().plays() + 1
                    } else {
                        let t = final(self).spec_completed().last();
                        &&& final(self).spec_completed() == old(self).spec_completed().push(t)
                        &&& t.spec_first() == old(self).spec_current().spec_first()
                        &&& t.spec_cards().len() == 4
                        &&& forall|s: int|
                            0 <= s < 4 && s != old(self).spec_current().spec_next()
                                ==> old(self).spec_current().spec_slots()[s] == Some(
                                #[trigger] t.spec_cards()[s],
                            )
                        &&& t.spec_cards()[old(self).spec_current().spec_next()] == card
                        &&& winning_seat::<G>(t.spec_cards(), t.spec_first(), t.spec_taker())
                        &&& final(self).spec_current().plays() == 0
                        &&& final(self).spec_current().spec_first() == t.spec_taker()
                    }
                },
            },
    {
        proof {
            use_type_invariant(&seat);
        }
        let i = seat.get();
        let next = self.current.next_to_play();
        if i != next.get() {
            return Err(PlayError::NotYourTurn);
        }
        let k = match self.players[i].find_card(&card) {
            Some(k) => k,
            None => {
                return Err(PlayError::CardNotHeld);
            },
        };
        let leading = self.leading_suit();
        match leading {
            Some(lead) => {
                let cs = G::suit_of(&card);
                if !G::suits_equal(&cs, &lead) {
                    proof {
                        crate::rules::lemma_follow_suit::<G>(
                            self.spec_players()[seat@].spec_hand(),
                            lead,
                        );
                    }
                    let hand = self.players[i].hand();
                    let mut j: usize = 0;
                    while j < hand.len()
                        invariant
                            j <= hand@.len(),
                            forall|m: int| 0 <= m < j ==> G::spec_suit(#[trigger] hand@[m]) != lead,
                        decreases hand@.len() - j,
                    {
                        let hs = G::suit_of(&hand[j]);
                        if G::suits_equal(&hs, &lead) {
                            return Err(PlayError::MustFollowSuit);
                        }
                        j = j + 1;
                    }
                }
            },
            None => {},
        }
        let ghost before = *self;
        match self.current.play(card) {
            Err(_) => {
                return Err(PlayError::DuplicateCard);
            },
            Ok(_) => {},
        }
        let p = &mut self.players[i];
        p.remove_at(k);
        if self.current.is_full() {
            let ghost inter = self.current;
            match self.current.finish() {
                Some(t) => {
                    let ghost gt = t;
                    let taker = t.taker();
                    self.completed.push(t);
                    self.current = OngoingTrick::new(taker);
                    proof {
                        assert forall|s: int|
                            0 <= s < 4 && s != before.spec_current().spec_next() implies before.spec_current().spec_slots()[s]
                            == Some(#[trigger] gt.spec_cards()[s]) by {
                            assert(inter.spec_slots()[s] == Some(gt.spec_cards()[s]));
                        }
                    }
                },
                None => {
                    proof {
                        assert(false);
                    }
                },
            }
        }
        Ok(())
    }
    /// Per-side totals of a completed hand, in thirds of a point: each
    /// side scores the card values of the tricks its seats took, and the
    /// side that took the last trick scores the bonus on top.
    pub fn score(&self) -> (s: (u64, u64))
        requires
            self.wf(),
            self.spec_complete(),
        ensures
            s.0 as int == hand_score::<G>(self.spec_completed(), 0),
            s.1 as int == hand_score::<G>(self.spec_completed(), 1),
    {
        proof {
            G::lemma_bounds();
        }
        let n = self.completed.len();
        let mut s0: u64 = 0;
        let mut s1: u64 = 0;
        let mut i: usize = 0;
        while i < n
            invariant
                self.wf(),
                n == self.spec_completed().len(),
                n <= 0x1000,
                i <= n,
                s0 as int == side_score::<G>(self.spec_completed().subrange(0, i as int), 0),
                s1 as int == side_score::<G>(self.spec_completed().subrange(0, i as int), 1),
                s0 <= i * 0x3fffc,
                s1 <= i * 0x3fffc,
            decreases n - i,
        {
            let t = &self.completed[i];
            let side = G::side_of(t.taker().get());
            let v = trick_value::<G>(t);
            proof {
                let prefix = self.spec_completed().subrange(0, i as int);
                let next = self.spec_completed().subrange(0, i + 1);
                assert(next.drop_last() =~= prefix);
                assert(next.last() == self.spec_completed()[i as int]);
            }
            if side == 0 {
                s0 = s0 + v as u64;
            } else {
                s1 = s1 + v as u64;
            }
            i = i + 1;
        }
        proof {
            assert(self.spec_completed().subrange(0, n as int) =~= self.spec_completed());
        }
        let last = &self.completed[n - 1];
        let bside = G::side_of(last.taker().get());
        let b = G::last_trick_bonus();
        proof {
            assert(self.spec_completed().last() == self.spec_completed()[n - 1]);
        }
        if bside == 0 {
            s0 = s0 + b as u64;
        } else {
            s1 = s1 + b as u64;
        }
        (s0, s1)
    }

    /// Finalizes a completed hand into its immutable record.
    pub fn finish(self) -> (h: Hand<G>)
        requires
            self.wf(),
            self.spec_complete(),
        ensures
            h.spec_tricks() == self.spec_completed(),
            h.spec_scores().0 as int == hand_score::<G>(self.spec_completed(), 0),
            h.spec_scores().1 as int == hand_score::<G>(self.spec_completed(), 1),
    {
        let scores = self.score();
        let OngoingHand { players: _, current: _, completed } = self;
        Hand { tricks: completed, scores }
    }
}

/// Total scoring weight, in thirds of a point, of a finished trick's cards.
fn trick_value<G: TrickTakingGame>(t: &Trick<G>) -> (v: u32)
    ensures
        v as int == cards_value::<G>(t.spec_cards()),
        v <= 0x3fffc,
{
    proof {
        G::lemma_bounds();
    }
    let cards = t.cards();
    let mut v: u32 = 0;
    let mut i: usize = 0;
    while i < cards.len()
        invariant
            cards@ == t.spec_cards(),
            cards@.len() == 4,
            i <= 4,
            v as int == cards_value::<G>(cards@.subrange(0, i as int)),
            v <= i * 0xffff,
            forall|c: G::CardType| 0 <= #[trigger] G::spec_value(c) <= 0xffff,
        decreases 4 - i,
    {
        let cv = G::value_of(&cards[i]);
        proof {
            let prefix = cards@.subrange(0, i as int);
            let next = cards@.subrange(0, i + 1);
            assert(next.drop_last() =~= prefix);
            assert(next.last() == cards@[i as int]);
        }
        v = v + cv;
        i = i + 1;
    }
    proof {
        assert(cards@.subrange(0, 4) =~= cards@);
    }
    v
}

/// Immutable record of a completed hand: its tricks in play order and the
/// per-side score totals, in thirds of a point.
pub struct Hand<G: TrickTakingGame> {
    tricks: Vec<Trick<G>>,
    scores: (u64, u64),
}

impl<G: TrickTakingGame> Hand<G> {
    /// The tricks of the hand, in play order.
    pub closed spec fn spec_tricks(self) -> Seq<Trick<G>> {
        self.tricks@
    }

    /// The per-side score totals, in thirds of a point.
    pub closed spec fn spec_scores(self) -> (u64, u64) {
        self.scores
    }

    /// The tricks of the hand, in play order.
    pub fn tricks(&self) -> (t: &Vec<Trick<G>>)
        ensures
            t@ == self.spec_tricks(),
    {
        &self.tricks
    }

    /// The per-side score totals, in thirds of a point.
    pub fn scores(&self) -> (s: (u64, u64))
        ensures
            s == self.spec_scores(),
    {
        self.scores
    }
}

} // verus!
