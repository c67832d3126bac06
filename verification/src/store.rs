//! The store of all players' states, and what decides when it is saved.

use crate::state::{PlayerState, PlayerStateView};
use std::collections::HashMap;
use std::time::Instant;
use vstd::prelude::*;

verus! {

/// `std::time::Instant`: a point in time, as the clock of the machine gives
/// it. Nothing is known of it here but that it can be kept.
#[verifier::external_type_specification]
#[verifier::external_body]
pub struct ExInstant(std::time::Instant);

/// Reads the clock, with `Instant::now` of std. Nothing is claimed of the
/// time that comes back.
#[verifier::external_body]
fn clock_now() -> (now: Instant) {
    Instant::now()
}

/// Looks a player up for changing, with `HashMap::get_mut` of std. For a
/// key that the map holds this gives access to its value: what is written
/// there is what the map holds for the key afterwards, and nothing else in
/// the map changes. For a key that it does not hold it gives nothing and
/// the map stays as it is.
#[verifier::external_body]
fn entry_mut(players: &mut HashMap<u64, PlayerState>, user_id: u64) -> (entry: Option<
    &mut PlayerState,
>)
    ensures
        match entry {
            Some(state) => old(players)@.contains_key(user_id) && *state == old(players)@[user_id]
                && final(players)@ == old(players)@.insert(user_id, *final(state)),
            None => !old(players)@.contains_key(user_id) && final(players)@ == old(players)@,
        },
{
    players.get_mut(&user_id)
}

/// The states of all players, by player, with what is needed to decide
/// when they are saved.
pub struct PlayerStateManager {
    pub players: HashMap<u64, PlayerState>,
    dirty: bool,
    last_save: Option<Instant>,
}

/// The states of the players as plain values.
pub open spec fn state_views(players: Map<u64, PlayerState>) -> Map<u64, PlayerStateView> {
    players.map_values(|state: PlayerState| state@)
}

/// Putting a state into the map puts its view into the views of the map.
pub proof fn lemma_insert_view(players: Map<u64, PlayerState>, user_id: u64)
    ensures
        forall|state: PlayerState| #[trigger]
            state_views(players.insert(user_id, state)) == state_views(players).insert(
                user_id,
                state@,
            ),
{
}

impl PlayerStateManager {
    /// The states of the players as plain values.
    pub closed spec fn states(&self) -> Map<u64, PlayerStateView> {
        state_views(self.players@)
    }

    /// Whether the store holds what the last snapshot does not.
    pub closed spec fn is_dirty(&self) -> bool {
        self.dirty
    }

    /// When the store was last saved or loaded, if it ever was.
    pub closed spec fn last_saved(&self) -> Option<Instant> {
        self.last_save
    }

    /// An empty store. It counts as saved now.
    pub fn new() -> (store: PlayerStateManager)
        ensures
            store.states() == Map::<u64, PlayerStateView>::empty(),
            !store.is_dirty(),
            store.last_saved() is Some,
    {
        let store = PlayerStateManager {
            players: HashMap::new(),
            dirty: false,
            last_save: Some(clock_now()),
        };
        store
    }

    /// The state of a player, for reading and changing, if the player has
    /// started a combat. No state is made for a player who has not.
    pub fn get_player_state(&mut self, user_id: u64) -> (found: Option<&mut PlayerState>)
        ensures
            match found {
                Some(state) => old(self).states().contains_key(user_id) && state@ == old(
                    self,
                ).states()[user_id] && final(self).states() == old(self).states().insert(
                    user_id,
                    final(state)@,
                ),
                None => !old(self).states().contains_key(user_id) && final(self).states() == old(
                    self,
                ).states(),
            },
            final(self).is_dirty() == old(self).is_dirty(),
            final(self).last_saved() == old(self).last_saved(),
    {
        let found = entry_mut(&mut self.players, user_id);
        proof {
            lemma_insert_view(old(self).players@, user_id);
        }
        found
    }

    /// Starts a combat for a player: a fresh state takes the place of
    /// whatever the player had, and the store is marked as changed. Gives
    /// access to the new state.
    pub fn start_new_combat(&mut self, user_id: u64) -> (state: &mut PlayerState)
        ensures
            state@.hand.len() == 0,
            state@.discard.len() == 0,
            state@.well_formed(),
            final(self).states() == old(self).states().insert(user_id, final(state)@),
            final(self).is_dirty(),
            final(self).last_saved() == old(self).last_saved(),
    {
        broadcast use vstd::std_specs::hash::group_hash_axioms;

        self.players.insert(user_id, PlayerState::new());
        self.mark_dirty();
        let ghost fresh = self.players@;
        proof {
            lemma_insert_view(old(self).players@, user_id);
            lemma_insert_view(fresh, user_id);
        }
        let entry = entry_mut(&mut self.players, user_id);
        entry.unwrap()
    }

    /// The state of a player, for reading, if the player has started a
    /// combat.
    pub fn player_state(&self, user_id: u64) -> (found: Option<&PlayerState>)
        ensures
            match found {
                Some(state) => self.states().contains_key(user_id) && state@
                    == self.states()[user_id],
                None => !self.states().contains_key(user_id),
            },
    {
        broadcast use vstd::std_specs::hash::group_hash_axioms;

        self.players.get(&user_id)
    }

    /// The states of all players, as they are to be written to a snapshot.
    pub fn players(&self) -> (players: &HashMap<u64, PlayerState>)
        ensures
            state_views(players@) == self.states(),
    {
        &self.players
    }

    /// Whether the store holds what the last snapshot does not.
    pub fn needs_save(&self) -> (needed: bool)
        ensures
            needed == self.is_dirty(),
    {
        self.dirty
    }

    /// Marks the store as changed since the last snapshot.
    fn mark_dirty(&mut self)
        ensures
            final(self).is_dirty(),
            final(self).players == old(self).players,
            final(self).last_saved() == old(self).last_saved(),
    {
        self.dirty = true;
    }

    /// Takes part in saving the store. The caller writes the snapshot and
    /// tells what came of each step; this says what to do next. A store
    /// that has not changed is not written. A store that has is written to
    /// a file of its own first, and that file then takes the place of the
    /// snapshot, so that a snapshot is never left half written. Once it has
    /// taken its place the store counts as saved, now. A failure leaves the
    /// store marked as changed, and a later save tries again.
    pub fn save_state(&mut self, event: SaveEvent) -> (action: SaveAction)
        ensures
            action == save_action(old(self).is_dirty(), event),
            final(self).is_dirty() == dirty_after(old(self).is_dirty(), event),
            final(self).states() == old(self).states(),
            event == SaveEvent::Renamed ==> final(self).last_saved() is Some,
            event != SaveEvent::Renamed ==> final(self).last_saved() == old(self).last_saved(),
    {
        match event {
            SaveEvent::Requested => {
                if self.dirty {
                    SaveAction::WriteTemp
                } else {
                    SaveAction::Skip
                }
            },
            SaveEvent::TempWritten => SaveAction::Rename,
            SaveEvent::Renamed => {
                self.dirty = false;
                self.last_save = Some(clock_now());
                SaveAction::Done
            },
            SaveEvent::Failed => SaveAction::Fail,
        }
    }

    /// The store to start with, given what was read of the snapshot: the
    /// states that it held, or an empty store where no snapshot could be
    /// read. Either way the store counts as saved now.
    pub fn load_state(loaded: Option<HashMap<u64, PlayerState>>) -> (store: PlayerStateManager)
        ensures
            store.states() == match loaded {
                Some(players) => state_views(players@),
                None => Map::<u64, PlayerStateView>::empty(),
            },
            !store.is_dirty(),
            store.last_saved() is Some,
    {
        match loaded {
            Some(players) => PlayerStateManager {
                players,
                dirty: false,
                last_save: Some(clock_now()),
            },
            None => PlayerStateManager::new(),
        }
    }
}

impl Default for PlayerStateManager {
    /// An empty store that was never saved.
    fn default() -> (store: PlayerStateManager)
        ensures
            store.states() == Map::<u64, PlayerStateView>::empty(),
            !store.is_dirty(),
            store.last_saved() is None,
    {
        let store = PlayerStateManager { players: HashMap::new(), dirty: false, last_save: None };
        store
    }
}

/// Where the snapshot of the store lies.
pub const SNAPSHOT_FILE: &'static str = "player_state.json";

/// Where a snapshot is written before it takes the place of the last one.
pub const SNAPSHOT_TEMP_FILE: &'static str = "player_state.json.tmp";

/// How many seconds pass between two saves of a store that has changed.
pub const AUTOSAVE_SECONDS: u64 = 30;

/// What the caller reports while a store is saved.
#[derive(Debug, Clone, Copy, PartialEq, Eq, Structural)]
pub enum SaveEvent {
    /// A save is asked for.
    Requested,
    /// The snapshot has been written to the file of its own.
    TempWritten,
    /// That file has taken the place of the last snapshot.
    Renamed,
    /// Writing or renaming has failed.
    Failed,
}

/// What the caller is to do next while a store is saved.
#[derive(Debug, Clone, Copy, PartialEq, Eq, Structural)]
pub enum SaveAction {
    /// Nothing has changed: nothing is written.
    Skip,
    /// Write the snapshot to the file of its own.
    WriteTemp,
    /// Let that file take the place of the last snapshot.
    Rename,
    /// The store is saved.
    Done,
    /// Report the failure; the store is as it was.
    Fail,
}

/// What is to be done next, given whether the store has changed since the
/// last snapshot and what the caller reports.
pub open spec fn save_action(dirty: bool, event: SaveEvent) -> SaveAction {
    match event {
        SaveEvent::Requested => if dirty {
            SaveAction::WriteTemp
        } else {
            SaveAction::Skip
        },
        SaveEvent::TempWritten => SaveAction::Rename,
        SaveEvent::Renamed => SaveAction::Done,
        SaveEvent::Failed => SaveAction::Fail,
    }
}

/// Whether the store counts as changed after what the caller reports.
pub open spec fn dirty_after(dirty: bool, event: SaveEvent) -> bool {
    event != SaveEvent::Renamed && dirty
}

/// A save that has gone through is not done twice: once the snapshot is in
/// place, a save that is asked for writes nothing, whatever the store was
/// before, and goes on writing nothing as long as saves are only asked for.
pub proof fn lemma_saved_store_is_skipped(dirty: bool)
    ensures
        save_action(dirty_after(dirty, SaveEvent::Renamed), SaveEvent::Requested)
            == SaveAction::Skip,
        dirty_after(dirty_after(dirty, SaveEvent::Renamed), SaveEvent::Requested) == false,
{
}

/// A save that has failed is tried again: the store that had changed still
/// counts as changed, and the next save that is asked for writes it.
pub proof fn lemma_failed_save_is_retried(dirty: bool)
    requires
        dirty,
    ensures
        save_action(dirty_after(dirty, SaveEvent::Failed), SaveEvent::Requested)
            == SaveAction::WriteTemp,
{
}

} // verus!
