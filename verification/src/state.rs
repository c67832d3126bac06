//! A player's cards and what can be done with them: drawing, discarding,
//! finding the combos of the hand and resolving one.

use crate::effect::{effect_of, EffectPayload, EffectView};
use crate::error::EngineError;
use crate::matching::{
    check_group, check_pairs, check_pattern, double_trouble_at, found_view, group_at,
    group_match_view, in_bounds, lemma_offer_positions, lemma_possible_hands_sound, match_at, offered_by,
    pair_value_at, possible_hands, search_hand, slot_in_bounds, Pattern,
};
use crate::order::{descending, lemma_descending, sort_descending};
use crate::types::{
    card_views, hand_views, standard_deck, CardType, CardView, Deck, ElementType, HandType,
    HandView,
};
use vstd::multiset::Multiset;
use vstd::prelude::*;

verus! {

/// A player's cards: the deck to draw from, the hand, and the discard pile.
#[derive(Debug)]
pub struct PlayerState {
    pub deck: Deck,
    pub hand: Vec<CardType>,
    pub discard: Vec<CardType>,
}

/// What a [`PlayerState`] holds, as plain values. The last card of `deck` is
/// the next to be drawn.
pub struct PlayerStateView {
    pub deck: Seq<CardView>,
    pub hand: Seq<CardView>,
    pub discard: Seq<CardView>,
}

impl View for PlayerState {
    type V = PlayerStateView;

    open spec fn view(&self) -> PlayerStateView {
        PlayerStateView {
            deck: self.deck@,
            hand: card_views(self.hand@),
            discard: card_views(self.discard@),
        }
    }
}

impl PlayerStateView {
    /// How many cards the player has in all.
    pub open spec fn card_count(self) -> nat {
        self.deck.len() + self.hand.len() + self.discard.len()
    }

    /// The player's cards, wherever they lie, each as often as it occurs.
    pub open spec fn all_cards(self) -> Multiset<CardView> {
        self.deck.to_multiset().add(self.hand.to_multiset()).add(self.discard.to_multiset())
    }

    /// The player's cards are those of the standard deck.
    pub open spec fn well_formed(self) -> bool {
        self.all_cards() == standard_deck().to_multiset()
    }

    /// The state after the card at `index` has gone from the hand to the
    /// discard pile.
    pub open spec fn discarded(self, index: int) -> PlayerStateView {
        PlayerStateView {
            deck: self.deck,
            hand: self.hand.remove(index),
            discard: self.discard.push(self.hand[index]),
        }
    }

    /// The state after the top `count` cards of the deck have gone to the
    /// hand, one after the other.
    pub open spec fn drawn(self, count: nat) -> PlayerStateView {
        let kept = self.deck.len() - count;
        PlayerStateView {
            deck: self.deck.take(kept),
            hand: self.hand + self.deck.skip(kept).reverse(),
            discard: self.discard,
        }
    }

    /// The state after the discard pile has become the deck, in the order
    /// `shuffled`.
    pub open spec fn recycled(self, shuffled: Seq<CardView>) -> PlayerStateView {
        PlayerStateView { deck: shuffled, hand: self.hand, discard: Seq::empty() }
    }

    /// How many cards can be drawn before none is left: those of the deck
    /// and those of the discard pile.
    pub open spec fn supply(self) -> nat {
        self.deck.len() + self.discard.len()
    }

    /// `after` is what a draw of `count` cards makes of this state when the
    /// discard pile, if it is needed, comes back in the order `shuffled`.
    /// The deck is drawn from first. When it runs out the discard pile
    /// becomes the deck, and the draw goes on until `count` cards are drawn
    /// or no card is left.
    pub open spec fn draws_to(
        self,
        count: nat,
        shuffled: Seq<CardView>,
        after: PlayerStateView,
    ) -> bool {
        if count <= self.deck.len() {
            after == self.drawn(count)
        } else if self.discard.len() == 0 {
            after == self.drawn(self.deck.len())
        } else {
            let rest = count - self.deck.len();
            let second = if rest <= self.discard.len() {
                rest as nat
            } else {
                self.discard.len()
            };
            is_shuffle_of(shuffled, self.discard) && after == self.drawn(self.deck.len()).recycled(
                shuffled,
            ).drawn(second)
        }
    }

    /// The state after the cards at the given positions have been discarded
    /// one after the other, each position taken in the hand as the discards
    /// before it have left it. The first position that does not lie in the
    /// hand ends the discarding.
    pub open spec fn discarded_each(self, positions: Seq<usize>) -> PlayerStateView
        decreases positions.len(),
    {
        if positions.len() == 0 || positions[0] >= self.hand.len() {
            self
        } else {
            self.discarded(positions[0] as int).discarded_each(positions.skip(1))
        }
    }

    /// Each of the given positions lies in the hand when its turn comes.
    pub open spec fn discards_each(self, positions: Seq<usize>) -> bool
        decreases positions.len(),
    {
        positions.len() == 0 || (positions[0] < self.hand.len() && self.discarded(
            positions[0] as int,
        ).discards_each(positions.skip(1)))
    }

    /// `after` is what a draw of `count` cards can make of this state, and
    /// `complete` tells whether all of them were drawn: they are when the
    /// deck and the discard pile together hold as many.
    pub open spec fn draw_result(self, count: nat, after: PlayerStateView, complete: bool) -> bool {
        &&& exists|shuffled: Seq<CardView>| self.draws_to(count, shuffled, after)
        &&& complete == (count <= self.supply())
    }
}

impl PlayerStateView {
    /// `after` and `outcome` are what resolving the combo with the number
    /// `selection` can make of this state. A number that is not in the list
    /// of the combos that the hand offers changes nothing and is an
    /// `InvalidSelection`. Else the cards of the combo are discarded from
    /// the highest position down, which cannot fail, and the hand is drawn
    /// full; the outcome is the effect of the combo, or `ExhaustedSupply`
    /// where the cards did not last.
    pub open spec fn resolves_to(
        self,
        selection: nat,
        after: PlayerStateView,
        outcome: Result<EffectView, EngineError>,
    ) -> bool {
        let offered = possible_hands(self.hand);
        if selection == 0 || selection > offered.len() {
            after == self && outcome == Err::<EffectView, EngineError>(
                EngineError::InvalidSelection,
            )
        } else {
            let combo = offered[selection - 1];
            let emptied = self.discarded_each(descending(combo.card_indices()));
            &&& self.discards_each(descending(combo.card_indices()))
            &&& emptied.hand.len() == self.hand.len() - combo.card_indices().len()
            &&& emptied.draw_result(missing_cards(emptied.hand.len()), after, outcome is Ok)
            &&& outcome matches Ok(effect) ==> effect == effect_of(combo)
            &&& outcome matches Err(error) ==> error == EngineError::ExhaustedSupply
        }
    }

    /// `after` and `failure` are what trading the cards at the given
    /// positions, counted from one, can make of this state. Positions that
    /// are not valid change nothing and are an `IndexOutOfBounds`. Else the
    /// cards are discarded from the highest position down. Where a position
    /// is given twice the card behind the discarded one goes too, and a
    /// position that has left the hand by then ends the trade with
    /// `IndexOutOfBounds`. After the discards as many cards are drawn as
    /// positions were given; `ExhaustedSupply` where the cards do not last.
    pub open spec fn mulligan_to(
        self,
        positions: Seq<usize>,
        after: PlayerStateView,
        failure: Option<EngineError>,
    ) -> bool {
        if !valid_positions(positions, self.hand.len()) {
            after == self && failure == Some(EngineError::IndexOutOfBounds)
        } else {
            let sorted = descending(zero_based(positions));
            let emptied = self.discarded_each(sorted);
            if self.discards_each(sorted) {
                &&& emptied.draw_result(positions.len(), after, failure is None)
                &&& failure matches Some(error) ==> error == EngineError::ExhaustedSupply
            } else {
                after == emptied && failure == Some(EngineError::IndexOutOfBounds)
            }
        }
    }
}

/// What came of resolving a combo, as plain values.
pub open spec fn outcome_view(done: Result<EffectPayload, EngineError>) -> Result<
    EffectView,
    EngineError,
> {
    match done {
        Ok(effect) => Ok(effect@),
        Err(error) => Err(error),
    }
}

/// The error that an operation ended with, if it did.
pub open spec fn failure_of(done: Result<(), EngineError>) -> Option<EngineError> {
    match done {
        Ok(_) => None,
        Err(error) => Some(error),
    }
}

/// How many cards a full hand holds.
pub const HAND_SIZE: usize = 5;

/// How many cards a hand of `held` cards lacks to be full.
pub open spec fn missing_cards(held: nat) -> nat {
    if held < 5 {
        (5 - held) as nat
    } else {
        0
    }
}

/// The positions counted from nought, given positions counted from one.
pub open spec fn zero_based(positions: Seq<usize>) -> Seq<usize> {
    positions.map_values(|position: usize| (position - 1) as usize)
}

/// One to five positions, counted from one, each of them in a hand of
/// `held` cards.
pub open spec fn valid_positions(positions: Seq<usize>, held: nat) -> bool {
    &&& 1 <= positions.len() <= 5
    &&& forall|t: int| 0 <= t < positions.len() ==> 1 <= (#[trigger] positions[t]) <= held
}

/// From each position to the next the positions fall.
pub open spec fn strictly_descending(positions: Seq<usize>) -> bool {
    forall|s: int, t: int| 0 <= s < t < positions.len() ==> positions[s] > positions[t]
}

/// Positions that fall from each to the next and lie in the hand can all be
/// discarded in their order: the hand loses as many cards as there are
/// positions, the discard pile gains the cards that stood there, in the
/// order of the positions, and the deck stays as it is.
pub proof fn lemma_discard_descending(state: PlayerStateView, positions: Seq<usize>)
    requires
        strictly_descending(positions),
        in_bounds(positions, state.hand.len()),
    ensures
        state.discards_each(positions),
        state.discarded_each(positions).hand.len() == state.hand.len() - positions.len(),
        state.discarded_each(positions).discard == state.discard + group_at(
            state.hand,
            positions,
        ),
        state.discarded_each(positions).deck == state.deck,
    decreases positions.len(),
{
    if positions.len() == 0 {
    } else {
        let rest = positions.skip(1);
        let next = state.discarded(positions[0] as int);
        lemma_discard_descending(next, rest);
    }
}

/// What resolving a combo leaves in the hand and on the discard pile. The
/// hand is full afterwards, unless it held more than a full hand and the
/// cards of the combo. Where the deck can serve the draw alone the
/// resolving goes through, and the cards of the combo lie on top of the
/// discard pile, the card from the highest position lowest.
pub proof fn lemma_resolved(
    state: PlayerStateView,
    selection: nat,
    after: PlayerStateView,
    outcome: Result<EffectView, EngineError>,
)
    requires
        state.hand.len() <= usize::MAX,
        1 <= selection <= possible_hands(state.hand).len(),
        state.resolves_to(selection, after, outcome),
    ensures
        ({
            let used = descending(possible_hands(state.hand)[selection - 1].card_indices());
            let left = state.hand.len() - used.len();
            &&& 2 <= used.len() <= 4
            &&& used.len() <= state.hand.len()
            &&& outcome is Ok ==> after.hand.len() == if left < 5 {
                5
            } else {
                left
            }
            &&& missing_cards(left as nat) <= state.deck.len() ==> outcome is Ok && after.discard
                == state.discard + group_at(state.hand, used) && after.deck.len()
                == state.deck.len() - missing_cards(left as nat)
        }),
{
    let combo = possible_hands(state.hand)[selection - 1];
    let used = descending(combo.card_indices());
    lemma_possible_hands_sound(state.hand, selection - 1);
    lemma_offer_positions(state.hand, combo);
    lemma_combo_positions_descend(state.hand, combo);
    lemma_discard_descending(state, used);
    let emptied = state.discarded_each(used);
    let missing = missing_cards(emptied.hand.len());
    let shuffled = choose|shuffled: Seq<CardView>| emptied.draws_to(missing, shuffled, after);
    if missing <= emptied.deck.len() {
    } else if emptied.discard.len() > 0 && outcome is Ok {
        shuffled.to_multiset_ensures();
        emptied.discard.to_multiset_ensures();
    }
}

/// Discarding keeps the player's cards, however many positions are given.
pub proof fn lemma_discarded_each_keeps_cards(state: PlayerStateView, positions: Seq<usize>)
    ensures
        state.discarded_each(positions).all_cards() == state.all_cards(),
        state.discarded_each(positions).card_count() == state.card_count(),
    decreases positions.len(),
{
    if positions.len() > 0 && positions[0] < state.hand.len() {
        lemma_discard_keeps_cards(state, positions[0] as int);
        lemma_discarded_each_keeps_cards(
            state.discarded(positions[0] as int),
            positions.skip(1),
        );
    }
}

/// The positions of a combo, taken from the highest down, fall from each to
/// the next and lie in the hand.
pub proof fn lemma_combo_positions_descend(hand: Seq<CardView>, combo: HandView)
    requires
        offered_by(hand, combo),
    ensures
        strictly_descending(descending(combo.card_indices())),
        in_bounds(descending(combo.card_indices()), hand.len()),
        descending(combo.card_indices()).len() == combo.card_indices().len(),
{
    let positions = combo.card_indices();
    let sorted = descending(positions);
    lemma_offer_positions(hand, combo);
    lemma_descending(positions);
    positions.lemma_multiset_has_no_duplicates();
    sorted.lemma_multiset_has_no_duplicates_conv();
    sorted.to_multiset_ensures();
    positions.to_multiset_ensures();
    assert forall|t: int| 0 <= t < sorted.len() implies (#[trigger] sorted[t]) < hand.len() by {
        assert(sorted.to_multiset().count(sorted[t]) > 0);
    }
}

/// `shuffled` holds the cards of `pile`, each as often, in some order.
pub open spec fn is_shuffle_of(shuffled: Seq<CardView>, pile: Seq<CardView>) -> bool {
    shuffled.to_multiset() == pile.to_multiset()
}

/// Drawing no card changes nothing.
pub proof fn lemma_drawn_none(state: PlayerStateView)
    ensures
        state.drawn(0) == state,
{
    assert(state.drawn(0).deck =~= state.deck);
}

/// Drawing one more card after `count` cards is drawing `count + 1` cards.
pub proof fn lemma_drawn_more(state: PlayerStateView, count: nat)
    requires
        count < state.deck.len(),
    ensures
        state.drawn(count).drawn(1) == state.drawn(count + 1),
{
    assert(state.drawn(count).drawn(1).deck =~= state.drawn(count + 1).deck);
    assert(state.drawn(count).drawn(1).hand =~= state.drawn(count + 1).hand);
}

/// Taking the discard pile back as the deck keeps the player's cards.
pub proof fn lemma_recycle_keeps_cards(state: PlayerStateView, shuffled: Seq<CardView>)
    requires
        state.deck.len() == 0,
        is_shuffle_of(shuffled, state.discard),
    ensures
        state.recycled(shuffled).all_cards() == state.all_cards(),
        state.recycled(shuffled).card_count() == state.card_count(),
{
    broadcast use vstd::seq_lib::group_to_multiset_ensures;

    shuffled.to_multiset_ensures();
    state.discard.to_multiset_ensures();
}

/// Discarding a card of the hand keeps the player's cards.
pub proof fn lemma_discard_keeps_cards(state: PlayerStateView, index: int)
    requires
        0 <= index < state.hand.len(),
    ensures
        state.discarded(index).all_cards() == state.all_cards(),
        state.discarded(index).card_count() == state.card_count(),
{
    broadcast use vstd::multiset::group_multiset_axioms;

    lemma_move_card(state.hand, index, state.discard);
    let after = state.discarded(index);
    assert forall|card: CardView|
        after.all_cards().count(card) == state.all_cards().count(card) by {
        assert(after.hand.to_multiset().add(after.discard.to_multiset()).count(card)
            == state.hand.to_multiset().add(state.discard.to_multiset()).count(card));
    }
}

/// A player whose cards are those of the standard deck has thirty cards,
/// wherever they lie.
pub proof fn lemma_well_formed_count(state: PlayerStateView)
    requires
        state.well_formed(),
    ensures
        state.card_count() == 30,
{
    broadcast use vstd::seq_lib::group_to_multiset_ensures;
    broadcast use vstd::multiset::group_multiset_axioms;

    state.deck.to_multiset_ensures();
    state.hand.to_multiset_ensures();
    state.discard.to_multiset_ensures();
    standard_deck().to_multiset_ensures();
}

/// A draw from an empty deck takes the discard pile back: the pile is
/// empty afterwards, the old hand still leads the new one, and the new deck
/// with the cards drawn on top of it is the old discard pile in some order.
pub proof fn lemma_draw_recycles(
    state: PlayerStateView,
    count: nat,
    shuffled: Seq<CardView>,
    after: PlayerStateView,
)
    requires
        state.deck.len() == 0,
        state.discard.len() > 0,
        count > 0,
        state.draws_to(count, shuffled, after),
    ensures
        after.discard.len() == 0,
        after.hand.len() == state.hand.len() + if count <= state.discard.len() {
            count
        } else {
            state.discard.len()
        },
        after.hand.take(state.hand.len() as int) == state.hand,
        is_shuffle_of(
            after.deck + after.hand.skip(state.hand.len() as int).reverse(),
            state.discard,
        ),
{
    shuffled.to_multiset_ensures();
    state.discard.to_multiset_ensures();
    lemma_drawn_none(state);
    let second = if count <= state.discard.len() {
        count
    } else {
        state.discard.len()
    };
    let kept = shuffled.len() - second;
    assert(after.hand.skip(state.hand.len() as int) =~= shuffled.skip(kept).reverse());
    assert(after.deck + shuffled.skip(kept).reverse().reverse() =~= shuffled);
}

/// A draw with nothing in the deck and nothing discarded leaves the state
/// as it is.
pub proof fn lemma_draw_from_nothing(
    state: PlayerStateView,
    count: nat,
    shuffled: Seq<CardView>,
    after: PlayerStateView,
)
    requires
        state.supply() == 0,
        state.draws_to(count, shuffled, after),
    ensures
        after == state,
{
    lemma_drawn_none(state);
}

/// A draw that the deck can serve alone takes its top cards, the topmost
/// first, and touches nothing else.
pub proof fn lemma_draw_from_deck(
    state: PlayerStateView,
    count: nat,
    shuffled: Seq<CardView>,
    after: PlayerStateView,
)
    requires
        count <= state.deck.len(),
        state.draws_to(count, shuffled, after),
    ensures
        after.discard == state.discard,
        after.deck == state.deck.take(state.deck.len() - count),
        after.hand.len() == state.hand.len() + count,
        forall|t: int|
            0 <= t < count ==> #[trigger] after.hand[state.hand.len() + t] == state.deck[state.deck.len()
                - 1 - t],
{
}

/// Moving the top card of one pile onto another keeps the cards of the two
/// piles taken together.
pub proof fn lemma_move_top(from: Seq<CardView>, onto: Seq<CardView>)
    requires
        from.len() > 0,
    ensures
        from.drop_last().to_multiset().add(onto.push(from.last()).to_multiset())
            == from.to_multiset().add(onto.to_multiset()),
{
    broadcast use vstd::seq_lib::group_to_multiset_ensures;

    assert(from == from.drop_last().push(from.last()));
}

/// Moving a card from within one pile onto another keeps the cards of the
/// two piles taken together.
pub proof fn lemma_move_card(from: Seq<CardView>, index: int, onto: Seq<CardView>)
    requires
        0 <= index < from.len(),
    ensures
        from.remove(index).to_multiset().add(onto.push(from[index]).to_multiset())
            == from.to_multiset().add(onto.to_multiset()),
{
    broadcast use vstd::seq_lib::group_to_multiset_ensures;

}

impl PlayerState {
    /// A fresh state: the standard deck, shuffled, with nothing in the hand
    /// and nothing discarded.
    pub fn new() -> (state: PlayerState)
        ensures
            state@.hand.len() == 0,
            state@.discard.len() == 0,
            state@.deck.to_multiset() == standard_deck().to_multiset(),
            state@.well_formed(),
            state@.card_count() == 30,
    {
        let mut deck = Deck::new();
        deck.shuffle();
        let state = PlayerState { deck, hand: Vec::new(), discard: Vec::new() };
        proof {
            broadcast use vstd::seq_lib::group_to_multiset_ensures;
            broadcast use vstd::multiset::group_multiset_axioms;

            state@.hand.to_multiset_ensures();
            assert(state@.all_cards() =~= standard_deck().to_multiset());
            lemma_well_formed_count(state@);
        }
        state
    }

    /// Moves the card at `card_index` from the hand to the discard pile. The
    /// cards behind it move down by one place.
    pub fn discard_from_hand(&mut self, card_index: usize) -> (done: Result<(), EngineError>)
        ensures
            card_index < old(self)@.hand.len() ==> done == Ok::<(), EngineError>(())
                && final(self)@ == old(self)@.discarded(card_index as int),
            card_index >= old(self)@.hand.len() ==> done == Err::<(), EngineError>(
                EngineError::IndexOutOfBounds,
            ) && final(self)@ == old(self)@,
            final(self)@.all_cards() == old(self)@.all_cards(),
            final(self)@.card_count() == old(self)@.card_count(),
    {
        if card_index >= self.hand.len() {
            return Err(EngineError::IndexOutOfBounds);
        }
        let card = self.hand.remove(card_index);
        self.discard.push(card);
        proof {
            lemma_discard_keeps_cards(old(self)@, card_index as int);
        }
        assert(card_views(self.hand@) =~= old(self)@.hand.remove(card_index as int));
        assert(card_views(self.discard@) =~= old(self)@.discard.push(
            old(self)@.hand[card_index as int],
        ));
        Ok(())
    }

    /// Draws `num_cards` cards into the hand, one at a time, from the top of
    /// the deck. When the deck is empty and a card is needed, the discard
    /// pile is shuffled and becomes the deck. When no card is left at all
    /// the draw ends with `ExhaustedSupply`; the cards drawn until then stay
    /// in the hand.
    pub fn draw_to_hand(&mut self, num_cards: usize) -> (done: Result<(), EngineError>)
        ensures
            old(self)@.draw_result(num_cards as nat, final(self)@, done is Ok),
            done is Err ==> done == Err::<(), EngineError>(EngineError::ExhaustedSupply),
            done is Ok ==> final(self)@.hand.len() == old(self)@.hand.len() + num_cards,
            final(self)@.all_cards() == old(self)@.all_cards(),
            final(self)@.card_count() == old(self)@.card_count(),
    {
        let ghost start = self@;
        let ghost mut shuffled: Seq<CardView> = Seq::empty();
        let ghost mut recycled = false;
        let mut drawn: usize = 0;
        proof {
            lemma_drawn_none(start);
        }
        while drawn < num_cards
            invariant
                drawn <= num_cards,
                start == old(self)@,
                !recycled ==> drawn <= start.deck.len() && self@ == start.drawn(drawn as nat),
                recycled ==> start.deck.len() < drawn <= start.supply() && start.discard.len() > 0
                    && is_shuffle_of(shuffled, start.discard) && self@ == start.drawn(
                    start.deck.len(),
                ).recycled(shuffled).drawn((drawn - start.deck.len()) as nat),
                self@.all_cards() == start.all_cards(),
                self@.card_count() == start.card_count(),
                self@.hand.len() == start.hand.len() + drawn,
            decreases num_cards - drawn,
        {
            if self.deck.cards.len() == 0 {
                if self.discard.len() == 0 {
                    proof {
                        if recycled {
                            shuffled.to_multiset_ensures();
                            start.discard.to_multiset_ensures();
                        }
                        assert(start.draws_to(num_cards as nat, shuffled, self@));
                    }
                    return Err(EngineError::ExhaustedSupply);
                }
                let ghost before = self@;
                self.deck.cards.append(&mut self.discard);
                self.deck.shuffle();
                proof {
                    shuffled = self.deck@;
                    recycled = true;
                    shuffled.to_multiset_ensures();
                    start.discard.to_multiset_ensures();
                    assert(self@.discard =~= Seq::<CardView>::empty());
                    lemma_drawn_none(self@);
                    lemma_recycle_keeps_cards(before, shuffled);
                }
            }
            let ghost before = self@;
            match self.deck.cards.pop() {
                Some(card) => {
                    self.hand.push(card);
                },
                None => {
                    return Err(EngineError::ExhaustedSupply);
                },
            }
            proof {
                assert(self@.deck =~= before.deck.drop_last());
                assert(self@.hand =~= before.hand.push(before.deck.last()));
                assert(before.drawn(1).hand =~= before.hand.push(before.deck.last()));
                lemma_move_top(before.deck, before.hand);
                if recycled {
                    shuffled.to_multiset_ensures();
                    start.discard.to_multiset_ensures();
                    lemma_drawn_more(
                        start.drawn(start.deck.len()).recycled(shuffled),
                        (drawn - start.deck.len()) as nat,
                    );
                } else {
                    lemma_drawn_more(start, drawn as nat);
                }
            }
            drawn += 1;
        }
        proof {
            if recycled {
                shuffled.to_multiset_ensures();
                start.discard.to_multiset_ensures();
            }
            assert(start.draws_to(num_cards as nat, shuffled, self@));
        }
        Ok(())
    }

    /// Discards the cards at the given positions one after the other, each
    /// position taken in the hand as it is when its turn comes. The first
    /// position that does not lie in the hand ends the discarding with
    /// `IndexOutOfBounds`; what was discarded before stays discarded.
    pub fn discard_all(&mut self, positions: &Vec<usize>) -> (done: Result<(), EngineError>)
        ensures
            final(self)@ == old(self)@.discarded_each(positions@),
            done is Ok <==> old(self)@.discards_each(positions@),
            done is Err ==> done == Err::<(), EngineError>(EngineError::IndexOutOfBounds),
            final(self)@.all_cards() == old(self)@.all_cards(),
            final(self)@.card_count() == old(self)@.card_count(),
    {
        let mut t: usize = 0;
        assert(positions@.skip(0) =~= positions@);
        while t < positions.len()
            invariant
                t <= positions.len(),
                self@.discarded_each(positions@.skip(t as int)) == old(self)@.discarded_each(
                    positions@,
                ),
                self@.discards_each(positions@.skip(t as int)) == old(self)@.discards_each(
                    positions@,
                ),
            decreases positions.len() - t,
        {
            assert(positions@.skip(t as int).skip(1) =~= positions@.skip(t + 1));
            match self.discard_from_hand(positions[t]) {
                Ok(_) => {},
                Err(error) => {
                    proof {
                        lemma_discarded_each_keeps_cards(old(self)@, positions@);
                    }
                    return Err(error);
                },
            }
            t += 1;
        }
        proof {
            lemma_discarded_each_keeps_cards(old(self)@, positions@);
        }
        Ok(())
    }

    /// Resolves the combo with the given number in the list of the combos
    /// that the hand offers, counted from one: discards its cards, from the
    /// highest position down, and draws until the hand is full again.
    /// Returns the effect of the combo.
    pub fn resolve_combo(&mut self, selection: usize) -> (done: Result<EffectPayload, EngineError>)
        ensures
            old(self)@.resolves_to(selection as nat, final(self)@, outcome_view(done)),
            final(self)@.all_cards() == old(self)@.all_cards(),
            final(self)@.card_count() == old(self)@.card_count(),
    {
        let hands = self.find_possible_hands();
        if selection == 0 || selection > hands.len() {
            return Err(EngineError::InvalidSelection);
        }
        let combo = &hands[selection - 1];
        let positions = sort_descending(combo.card_indices());
        proof {
            assert(self@.hand.len() == self.hand.len());
            lemma_possible_hands_sound(self@.hand, selection - 1);
            lemma_combo_positions_descend(self@.hand, combo@);
            lemma_discard_descending(self@, positions@);
        }
        match self.discard_all(&positions) {
            Ok(_) => {},
            Err(error) => {
                return Err(error);
            },
        }
        let needed = if self.hand.len() < HAND_SIZE {
            HAND_SIZE - self.hand.len()
        } else {
            0
        };
        match self.draw_to_hand(needed) {
            Ok(_) => {},
            Err(error) => {
                return Err(error);
            },
        }
        Ok(combo.effect())
    }

    /// Trades cards of the hand for new ones. The positions are counted from
    /// one, as the player sees them. One to five positions are taken, each
    /// of them in the hand; anything else is turned down with
    /// `IndexOutOfBounds` and changes nothing. The cards are discarded from
    /// the highest position down, and as many cards are drawn as positions
    /// were given.
    pub fn mulligan(&mut self, positions: &Vec<usize>) -> (done: Result<(), EngineError>)
        ensures
            old(self)@.mulligan_to(positions@, final(self)@, failure_of(done)),
            final(self)@.all_cards() == old(self)@.all_cards(),
            final(self)@.card_count() == old(self)@.card_count(),
    {
        if positions.len() == 0 || positions.len() > HAND_SIZE {
            return Err(EngineError::IndexOutOfBounds);
        }
        let mut indices: Vec<usize> = Vec::new();
        let mut t: usize = 0;
        while t < positions.len()
            invariant
                t <= positions.len(),
                indices@ == zero_based(positions@.take(t as int)),
                forall|s: int| 0 <= s < t ==> 1 <= (#[trigger] positions@[s]) <= self@.hand.len(),
                self@ == old(self)@,
            decreases positions.len() - t,
        {
            let position = positions[t];
            if position == 0 || position > self.hand.len() {
                return Err(EngineError::IndexOutOfBounds);
            }
            indices.push(position - 1);
            t += 1;
        }
        assert(positions@.take(t as int) =~= positions@);
        let sorted = sort_descending(&indices);
        match self.discard_all(&sorted) {
            Ok(_) => {},
            Err(error) => {
                return Err(error);
            },
        }
        self.draw_to_hand(positions.len())
    }

    /// A copy of the hand, to be shown after the state has been let go.
    pub fn hand_snapshot(&self) -> (hand: Vec<CardType>)
        ensures
            card_views(hand@) == self@.hand,
    {
        let mut hand: Vec<CardType> = Vec::new();
        let mut t: usize = 0;
        while t < self.hand.len()
            invariant
                t <= self.hand.len(),
                hand@ == self.hand@.take(t as int),
            decreases self.hand.len() - t,
        {
            hand.push(self.hand[t].clone());
            t += 1;
        }
        hand
    }

    /// Every combo that the hand offers, in the order in which they are
    /// offered to the player.
    pub fn find_possible_hands(&self) -> (hands: Vec<HandType>)
        ensures
            hand_views(hands@) == possible_hands(self@.hand),
    {
        search_hand(&self.hand)
    }

    /// The value and the elements of the pair at `i` and `j`, if the two
    /// cards match by the shared rule.
    pub fn check_pair_value(&self, i: usize, j: usize) -> (found: Option<(u8, Vec<ElementType>)>)
        ensures
            group_match_view(found) == pair_value_at(self@.hand, seq![i, j]),
    {
        let slot = vec![i, j];
        if !slot_in_bounds(&self.hand, &slot) {
            return None;
        }
        check_group(&self.hand, &slot)
    }

    /// The jackpot at the four positions, if the cards there form one.
    pub fn check_jackpot(&self, i: usize, j: usize, k: usize, l: usize) -> (found: Option<HandType>)
        ensures
            found_view(found) == match_at(self@.hand, Pattern::Jackpot, seq![i, j, k, l]),
    {
        let slot = vec![i, j, k, l];
        check_pattern(&self.hand, Pattern::Jackpot, &slot)
    }

    /// The double trouble of the pair at `i` and `j` with the pair at `k`
    /// and `l`, if they form one.
    pub fn check_double_trouble(&self, i: usize, j: usize, k: usize, l: usize) -> (found: Option<
        HandType,
    >)
        ensures
            found_view(found) == double_trouble_at(self@.hand, seq![i, j], seq![k, l]),
    {
        let first = vec![i, j];
        let second = vec![k, l];
        check_pairs(&self.hand, &first, &second)
    }

    /// The triple threat at the three positions, if the cards there form one.
    pub fn check_triple(&self, i: usize, j: usize, k: usize) -> (found: Option<HandType>)
        ensures
            found_view(found) == match_at(self@.hand, Pattern::TripleThreat, seq![i, j, k]),
    {
        let slot = vec![i, j, k];
        check_pattern(&self.hand, Pattern::TripleThreat, &slot)
    }

    /// The matched edge at the two positions, if the cards there form one.
    pub fn check_pair(&self, i: usize, j: usize) -> (found: Option<HandType>)
        ensures
            found_view(found) == match_at(self@.hand, Pattern::MatchedEdge, seq![i, j]),
    {
        let slot = vec![i, j];
        check_pattern(&self.hand, Pattern::MatchedEdge, &slot)
    }
}

} // verus!
