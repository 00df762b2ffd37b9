//! The per-connection session state.

use vstd::prelude::*;

verus! {

/// What a connection knows of itself: whether it has passed `AUTH`.
pub struct ClientState {
    pub auth: bool,
}

impl ClientState {
    /// The state of a connection that was just accepted.
    pub fn new() -> (r: Self)
        ensures
            !r.auth,
    {
        ClientState { auth: false }
    }
}

} // verus!
