//! The decisions of the cover-traffic loop: send over a random healthy
//! circuit when there is one, otherwise build a circuit and send over it,
//! and skip the round when no circuit can be built.
use vstd::prelude::*;
use crate::error::AbyssError;

verus! {

/// What the loop learnt: the random healthy circuit it picked, if any, or
/// the outcome of building a new one.
pub enum CoverEvent {
    Picked(Option<String>),
    Built(Result<String, AbyssError>),
}

/// What the loop does next.
pub enum CoverAction {
    /// Send a cover payload over the circuit with this id.
    Send(String),
    /// Build a new circuit.
    Build,
    /// Wait for the next round.
    Skip,
}

/// The next step of the cover-traffic loop.
pub fn cover_step(event: CoverEvent) -> (a: CoverAction)
    ensures
        match event {
            CoverEvent::Picked(Some(id)) => a matches CoverAction::Send(x) && x@ == id@,
            CoverEvent::Picked(None) => a is Build,
            CoverEvent::Built(Ok(id)) => a matches CoverAction::Send(x) && x@ == id@,
            CoverEvent::Built(Err(_)) => a is Skip,
        },
{
    match event {
        CoverEvent::Picked(Some(id)) => CoverAction::Send(id),
        CoverEvent::Picked(None) => CoverAction::Build,
        CoverEvent::Built(Ok(id)) => CoverAction::Send(id),
        CoverEvent::Built(Err(_)) => CoverAction::Skip,
    }
}

} // verus!
