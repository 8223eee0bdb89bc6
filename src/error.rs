//! Errors surfaced to the callers of the consensus core. A stale term, a
//! failed consistency check and a peer that needs a snapshot are protocol
//! outcomes instead: they travel in replies and outbound messages.
use vstd::prelude::*;

verus! {

#[derive(Debug, Clone, Copy, PartialEq, Eq, Structural)]
pub enum ConsensusError {
    /// A mutating call reached a server that is not the leader; carries the
    /// last known leader id (0 when none is known).
    NotLeader { leader_id: u64 },
    /// Persisted metadata, log or snapshot could not be read back.
    CorruptPersistedState,
    /// A configuration with both sets empty, or a membership change while a
    /// joint configuration is pending.
    InvalidConfiguration,
}

} // verus!
