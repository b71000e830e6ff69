//! The persisted record: which source last came up.
//!
//! The library only consumes and produces the record; reading and writing
//! it is left to the embedding program.

use vstd::prelude::*;
use crate::types::Source;

verus! {

/// The record kept between sessions.
#[derive(Clone, Copy, Debug, PartialEq, Eq, Structural)]
pub struct PersistedState {
    /// The source that the last successful arbitration chose.
    pub last_source: Option<Source>,
}

impl Default for PersistedState {
    /// The empty record: no source is remembered.
    fn default() -> (state: PersistedState)
        ensures
            state.last_source is None,
    {
        PersistedState { last_source: None }
    }
}

impl PersistedState {
    /// The record to store after `chosen` came up.
    pub fn remember(chosen: Source) -> (state: PersistedState)
        ensures
            state.last_source == Some(chosen),
    {
        PersistedState { last_source: Some(chosen) }
    }
}

/// Decides what clearing the persisted state has to do: the stored record
/// is removed exactly when its location is known and something is stored
/// there. In every other case there is nothing to remove and clearing
/// succeeds as it stands.
pub fn clear_persisted_state(location_known: bool, record_exists: bool) -> (remove: bool)
    ensures
        remove == (location_known && record_exists),
{
    location_known && record_exists
}

} // verus!
