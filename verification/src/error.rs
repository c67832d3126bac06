//! The errors of the engine.

use vstd::prelude::*;

verus! {

/// What can go wrong in the engine. None of these ends the game: the caller
/// reports it and goes on.
#[derive(Debug, Clone, Copy, PartialEq, Eq, Structural)]
pub enum EngineError {
    /// A card was to be drawn and neither the deck nor the discard pile held
    /// one.
    ExhaustedSupply,
    /// A position that was to be discarded does not lie in the hand.
    IndexOutOfBounds,
    /// The number of the chosen combo is not in the list of combos.
    InvalidSelection,
    /// The player has not started a combat.
    NotStarted,
    /// The snapshot could not be written or put in place.
    PersistenceFailure,
    /// The snapshot could not be read.
    LoadFailure,
}

/// The text that goes with an error.
pub open spec fn error_text(error: EngineError) -> Seq<char> {
    match error {
        EngineError::ExhaustedSupply => "No cards left in deck or discard"@,
        EngineError::IndexOutOfBounds => "Card index out of bounds"@,
        EngineError::InvalidSelection => "Invalid hand number."@,
        EngineError::NotStarted
            => "You haven't started a combat yet! Use /start_new_combat to begin."@,
        EngineError::PersistenceFailure => "Failed to save state"@,
        EngineError::LoadFailure => "Error loading state, starting fresh"@,
    }
}

impl EngineError {
    /// The text that goes with this error.
    pub fn message(&self) -> (text: &'static str)
        ensures
            text@ == error_text(*self),
    {
        match self {
            EngineError::ExhaustedSupply => "No cards left in deck or discard",
            EngineError::IndexOutOfBounds => "Card index out of bounds",
            EngineError::InvalidSelection => "Invalid hand number.",
            EngineError::NotStarted
                => "You haven't started a combat yet! Use /start_new_combat to begin.",
            EngineError::PersistenceFailure => "Failed to save state",
            EngineError::LoadFailure => "Error loading state, starting fresh",
        }
    }
}

} // verus!
