use vstd::prelude::*;

verus! {

/// Where a station stands in the medium-access cycle.
#[derive(Debug, Clone, Copy, PartialEq, Eq, Structural)]
pub enum StationPhase {
    WaitingForMedium,
    Defer,
    BackoffCountdown,
    Transmitting,
    AwaitingResult,
    CollisionRecovery,
}

} // verus!
