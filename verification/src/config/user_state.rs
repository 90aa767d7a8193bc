//! What av remembers about the user between runs.
use vstd::prelude::*;

verus! {

pub struct UserState {
    pub notified_stack_sync_change: bool,
}

impl Default for UserState {
    /// The user has not been told of the change to `stack sync`.
    fn default() -> (s: Self)
        ensures
            !s.notified_stack_sync_change,
    {
        UserState { notified_stack_sync_change: false }
    }
}

} // verus!
