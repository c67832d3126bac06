//! What each command of the game does to the store and what it replies.
//! The caller takes the command from the player, runs it here and sends
//! the reply.

use crate::display::{
    combo_list_text, effect_text, format_hand_display, format_possible_hands, hand_display,
};
use crate::effect::{effect_of, EffectView};
use crate::error::{error_text, EngineError};
use crate::matching::possible_hands;
use crate::parse::{parse_positions, positions_of};
use crate::state::{
    lemma_drawn_none, lemma_well_formed_count, valid_positions, PlayerStateView, HAND_SIZE,
};
use crate::store::PlayerStateManager;
use crate::types::CardView;
use vstd::prelude::*;
use vstd::string::StringExecFns;

verus! {

/// The reply to a trade of cards with positions that are not valid.
pub const INVALID_POSITIONS_REPLY: &'static str = "Please provide 1-5 valid card positions (1-5)";

/// The reply to a combat that has started with the given hand.
pub open spec fn started_reply(hand: Seq<CardView>) -> Seq<char> {
    "Combat started! Drew 5 cards.\n"@ + hand_display(hand)
}

/// The reply to a trade of cards that has left the given hand.
pub open spec fn mulligan_reply(hand: Seq<CardView>) -> Seq<char> {
    "Mulligan complete!\n"@ + hand_display(hand)
}

/// The reply to a combo that has been resolved with the given effect and
/// has left the given hand.
pub open spec fn resolved_reply(effect: EffectView, hand: Seq<CardView>) -> Seq<char> {
    effect_text(effect) + "\n"@ + hand_display(hand)
}

/// The command went through and replies with the given text.
pub open spec fn replies(reply: Result<String, EngineError>, text: Seq<char>) -> bool {
    match reply {
        Ok(said) => said@ == text,
        Err(_) => false,
    }
}

/// Whether the positions are one to five, each of them in the hand.
pub fn positions_valid(positions: &Vec<usize>, held: usize) -> (valid: bool)
    ensures
        valid == valid_positions(positions@, held as nat),
{
    if positions.len() == 0 || positions.len() > HAND_SIZE {
        return false;
    }
    let mut t: usize = 0;
    while t < positions.len()
        invariant
            t <= positions.len(),
            forall|s: int| 0 <= s < t ==> 1 <= (#[trigger] positions@[s]) <= held,
        decreases positions.len() - t,
    {
        if positions[t] == 0 || positions[t] > held {
            return false;
        }
        t += 1;
    }
    true
}

/// Starts a combat for the player and draws a full hand. The reply shows
/// the hand.
pub fn start_new_combat(store: &mut PlayerStateManager, user_id: u64) -> (reply: Result<
    String,
    EngineError,
>)
    ensures
        final(store).states().contains_key(user_id),
        final(store).states() == old(store).states().insert(
            user_id,
            final(store).states()[user_id],
        ),
        final(store).states()[user_id].hand.len() == 5,
        final(store).states()[user_id].deck.len() == 25,
        final(store).states()[user_id].discard.len() == 0,
        final(store).states()[user_id].well_formed(),
        final(store).is_dirty(),
        replies(reply, started_reply(final(store).states()[user_id].hand)),
{
    let state = store.start_new_combat(user_id);
    proof {
        lemma_well_formed_count(state@);
        lemma_drawn_none(state@);
    }
    match state.draw_to_hand(HAND_SIZE) {
        Ok(_) => {},
        Err(error) => {
            return Err(error);
        },
    }
    let hand = state.hand_snapshot();
    let mut text = "Combat started! Drew 5 cards.\n".to_owned();
    text.append(format_hand_display(hand.as_slice()).as_str());
    Ok(text)
}

/// Shows the player's hand.
pub fn view_hand(store: &PlayerStateManager, user_id: u64) -> (reply: String)
    ensures
        reply@ == if store.states().contains_key(user_id) {
            hand_display(store.states()[user_id].hand)
        } else {
            error_text(EngineError::NotStarted)
        },
{
    match store.player_state(user_id) {
        Some(state) => format_hand_display(state.hand.as_slice()),
        None => EngineError::NotStarted.message().to_owned(),
    }
}

/// Lists the combos that the player's hand offers.
pub fn view_possible_resolutions(store: &PlayerStateManager, user_id: u64) -> (reply: String)
    ensures
        reply@ == if store.states().contains_key(user_id) {
            combo_list_text(possible_hands(store.states()[user_id].hand))
        } else {
            error_text(EngineError::NotStarted)
        },
{
    match store.player_state(user_id) {
        Some(state) => {
            let hands = state.find_possible_hands();
            format_possible_hands(&hands)
        },
        None => EngineError::NotStarted.message().to_owned(),
    }
}

/// `after` and `reply` are what a trade of the cards at the given
/// positions can make of the states `before`. A player who has not started
/// a combat and positions that are not valid are told so in the reply, and
/// nothing changes. Else the player's state changes as the trade has it,
/// and no other; the reply shows the new hand, or the error of the trade is
/// handed on.
pub open spec fn mulligan_done(
    before: Map<u64, PlayerStateView>,
    user_id: u64,
    positions: Seq<usize>,
    after: Map<u64, PlayerStateView>,
    reply: Result<String, EngineError>,
) -> bool {
    if !before.contains_key(user_id) {
        after == before && replies(reply, error_text(EngineError::NotStarted))
    } else if !valid_positions(positions, before[user_id].hand.len()) {
        after == before && replies(reply, INVALID_POSITIONS_REPLY@)
    } else {
        &&& after.contains_key(user_id)
        &&& after == before.insert(user_id, after[user_id])
        &&& before[user_id].mulligan_to(
            positions,
            after[user_id],
            match reply {
                Ok(_) => None,
                Err(error) => Some(error),
            },
        )
        &&& reply is Ok ==> replies(reply, mulligan_reply(after[user_id].hand))
    }
}

/// Trades the cards at the positions that the player typed, counted from
/// one, for new ones. What is no number in the text is passed over.
pub fn mulligan(store: &mut PlayerStateManager, user_id: u64, positions: &str) -> (reply: Result<
    String,
    EngineError,
>)
    ensures
        mulligan_done(
            old(store).states(),
            user_id,
            positions_of(positions@),
            final(store).states(),
            reply,
        ),
        final(store).is_dirty() == old(store).is_dirty(),
{
    let positions = parse_positions(positions);
    mulligan_positions(store, user_id, &positions)
}

/// Trades the cards at the given positions, counted from one, for new
/// ones.
pub fn mulligan_positions(
    store: &mut PlayerStateManager,
    user_id: u64,
    positions: &Vec<usize>,
) -> (reply: Result<String, EngineError>)
    ensures
        mulligan_done(old(store).states(), user_id, positions@, final(store).states(), reply),
        final(store).is_dirty() == old(store).is_dirty(),
{
    match store.get_player_state(user_id) {
        None => Ok(EngineError::NotStarted.message().to_owned()),
        Some(state) => {
            if !positions_valid(positions, state.hand.len()) {
                proof {
                    lemma_state_kept(old(store).states(), user_id);
                }
                return Ok(INVALID_POSITIONS_REPLY.to_owned());
            }
            match state.mulligan(positions) {
                Ok(_) => {},
                Err(error) => {
                    return Err(error);
                },
            }
            let hand = state.hand_snapshot();
            let mut text = "Mulligan complete!\n".to_owned();
            text.append(format_hand_display(hand.as_slice()).as_str());
            Ok(text)
        },
    }
}

/// `after` and `reply` are what resolving the combo with the given number
/// can make of the states `before`. A player who has not started a combat
/// and a number that is not in the list of what the hand offers are told so
/// in the reply, and nothing changes. Else the player's state changes as
/// the resolving has it, and no other; the reply tells the effect and shows
/// the new hand, or the error of the draw is handed on.
pub open spec fn resolve_done(
    before: Map<u64, PlayerStateView>,
    user_id: u64,
    hand_number: nat,
    after: Map<u64, PlayerStateView>,
    reply: Result<String, EngineError>,
) -> bool {
    if !before.contains_key(user_id) {
        after == before && replies(reply, error_text(EngineError::NotStarted))
    } else if hand_number == 0 || hand_number > possible_hands(before[user_id].hand).len() {
        after == before && replies(reply, error_text(EngineError::InvalidSelection))
    } else {
        let effect = effect_of(possible_hands(before[user_id].hand)[hand_number - 1]);
        &&& after.contains_key(user_id)
        &&& after == before.insert(user_id, after[user_id])
        &&& before[user_id].resolves_to(
            hand_number,
            after[user_id],
            match reply {
                Ok(_) => Ok(effect),
                Err(error) => Err(error),
            },
        )
        &&& reply is Ok ==> replies(reply, resolved_reply(effect, after[user_id].hand))
    }
}

/// Resolves the combo with the given number in the list of what the
/// player's hand offers.
pub fn resolve_hand(store: &mut PlayerStateManager, user_id: u64, hand_number: usize) -> (reply:
    Result<String, EngineError>)
    ensures
        resolve_done(
            old(store).states(),
            user_id,
            hand_number as nat,
            final(store).states(),
            reply,
        ),
        final(store).is_dirty() == old(store).is_dirty(),
{
    match store.get_player_state(user_id) {
        None => Ok(EngineError::NotStarted.message().to_owned()),
        Some(state) => {
            match state.resolve_combo(hand_number) {
                Err(EngineError::InvalidSelection) => {
                    proof {
                        lemma_state_kept(old(store).states(), user_id);
                    }
                    Ok(EngineError::InvalidSelection.message().to_owned())
                },
                Err(error) => Err(error),
                Ok(effect) => {
                    let hand = state.hand_snapshot();
                    let mut text = effect.message();
                    text.append("\n");
                    text.append(format_hand_display(hand.as_slice()).as_str());
                    Ok(text)
                },
            }
        },
    }
}

/// Putting back into a map what it holds changes nothing.
pub proof fn lemma_state_kept(states: Map<u64, PlayerStateView>, user_id: u64)
    requires
        states.contains_key(user_id),
    ensures
        states.insert(user_id, states[user_id]) == states,
{
}

} // verus!
