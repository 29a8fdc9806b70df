use vstd::prelude::*;

verus! {

/// Write access to one registered conversation.
///
/// The registry hands one out for a registered peer only; the connection it
/// borrows is the one registered for that peer.
pub struct WebSocketWriter<'s, C> {
    pub stream: &'s mut C,
}

} // verus!
