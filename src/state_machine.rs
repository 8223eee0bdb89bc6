//! The application state machine that committed entries are applied to.
use vstd::prelude::*;

verus! {

/// Implemented by the application: applies committed entries in index
/// order, and writes or reads back snapshots of its state.
pub trait StateMachine {
    fn apply(&mut self, data: &Vec<u8>);

    fn take_snapshot(&mut self, snapshot_filepath: String);

    fn restore_snapshot(&mut self, snapshot_filepath: String);
}

} // verus!
