//! Versioned persistence envelope and the persistence port.
use vstd::prelude::*;

use crate::error::{CoreError, CoreFault};
use crate::state::{state_problem, BranllyState, StateView};

verus! {

/// Current on-disk format version.
pub const MEMORY_SCHEMA_VERSION: u32 = 2;

/// Versioned persistence envelope.
#[derive(Debug, Clone, PartialEq, Eq)]
pub struct MemorySnapshot {
    /// Enables explicit future migrations.
    pub schema_version: u32,
    /// Persisted domain state.
    pub state: BranllyState,
}

/// What restoring a snapshot of version `version` holding `s` yields: versions
/// `1..=MEMORY_SCHEMA_VERSION` are accepted (the previous schema's missing launcher
/// fields having been read as an empty, uninitialized launcher), the state must then
/// be valid.
pub open spec fn restore_outcome(version: u32, s: StateView) -> Result<StateView, CoreFault> {
    if !(1 <= version <= MEMORY_SCHEMA_VERSION) {
        Err(CoreFault::UnsupportedSchema { found: version, expected: MEMORY_SCHEMA_VERSION })
    } else {
        match state_problem(s) {
            Some(m) => Err(CoreFault::InvalidConfiguration(m)),
            None => Ok(s),
        }
    }
}

impl MemorySnapshot {
    /// Wraps a state in the current schema.
    pub fn current(state: BranllyState) -> (r: Self)
        ensures
            r.schema_version == MEMORY_SCHEMA_VERSION,
            r.state == state,
    {
        MemorySnapshot { schema_version: MEMORY_SCHEMA_VERSION, state }
    }

    /// Accepts the current and the previous schema and rejects unknown formats
    /// (`CoreError::UnsupportedSchema`), then revalidates the state.
    pub fn into_state(self) -> (r: Result<BranllyState, CoreError>)
        ensures
            match restore_outcome(self.schema_version, self.state@) {
                Ok(_) => r == Ok::<BranllyState, CoreError>(self.state),
                Err(f) => r matches Err(e) && e@ == f,
            },
    {
        if !(1 <= self.schema_version && self.schema_version <= MEMORY_SCHEMA_VERSION) {
            return Err(
                CoreError::UnsupportedSchema {
                    found: self.schema_version,
                    expected: MEMORY_SCHEMA_VERSION,
                },
            );
        }
        match self.state.validate() {
            Err(e) => Err(e),
            Ok(()) => Ok(self.state),
        }
    }
}

/// A valid state written as the current snapshot is restored unchanged, and an invalid
/// one is refused with the reason `validate` gives.
pub proof fn lemma_snapshot_round_trip(s: StateView)
    ensures
        state_problem(s) is None ==> restore_outcome(MEMORY_SCHEMA_VERSION, s) == Ok::<
            StateView,
            CoreFault,
        >(s),
        state_problem(s) matches Some(m) ==> restore_outcome(MEMORY_SCHEMA_VERSION, s) == Err::<
            StateView,
            CoreFault,
        >(CoreFault::InvalidConfiguration(m)),
{
}

/// Persistence port implemented by JSON/XDG and `AppData` adapters.
pub trait MemoryStore: Send + Sync {
    /// Loads the memory, returning `None` when it does not exist yet; fails with
    /// `CoreError::Storage` when the adapter cannot load valid data.
    fn load(&self) -> Result<Option<MemorySnapshot>, CoreError>;

    /// Atomically persists a snapshot; fails with `CoreError::Storage` when atomic
    /// persistence fails.
    fn save(&self, snapshot: &MemorySnapshot) -> Result<(), CoreError>;
}

} // verus!
