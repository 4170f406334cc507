use vstd::prelude::*;

use super::{backoff::BackoffState, phase::StationPhase, window::ContentionWindow};

verus! {

/// The state of one station during a run.
#[derive(Debug, Clone, PartialEq, Eq)]
pub struct StationRuntime {
    pub id: usize,
    pub class_name: String,
    pub phase: StationPhase,
    pub cw_min: u32,
    pub window: ContentionWindow,
    pub backoff: BackoffState,
    pub defer_slots_remaining: u32,
    pub packet_age_slots: u64,
    pub successful_packets: u64,
    pub collision_attempts: u64,
    pub total_delay_slots: u64,
}

impl StationRuntime {
    pub open spec fn wait_for_medium_spec(self) -> Self {
        StationRuntime { defer_slots_remaining: 0, phase: StationPhase::WaitingForMedium, ..self }
    }

    pub open spec fn enter_defer_spec(self, defer_slots: u32) -> Self {
        if defer_slots == 0 {
            StationRuntime {
                defer_slots_remaining: 0,
                backoff: self.backoff.resume_spec(),
                phase: StationPhase::BackoffCountdown,
                ..self
            }
        } else {
            StationRuntime { defer_slots_remaining: defer_slots, phase: StationPhase::Defer, ..self }
        }
    }

    pub open spec fn freeze_for_busy_spec(self) -> Self {
        if self.phase == StationPhase::BackoffCountdown {
            StationRuntime { backoff: self.backoff.freeze_spec(), ..self }.wait_for_medium_spec()
        } else {
            self.wait_for_medium_spec()
        }
    }

    pub open spec fn advance_idle_slot_spec(self) -> Self {
        if self.phase == StationPhase::Defer {
            let remaining: u32 = if self.defer_slots_remaining > 0 {
                (self.defer_slots_remaining - 1) as u32
            } else {
                0
            };
            if remaining == 0 {
                StationRuntime {
                    defer_slots_remaining: 0,
                    backoff: self.backoff.resume_spec(),
                    phase: StationPhase::BackoffCountdown,
                    ..self
                }
            } else {
                StationRuntime { defer_slots_remaining: remaining, ..self }
            }
        } else if self.phase == StationPhase::BackoffCountdown {
            StationRuntime { backoff: self.backoff.decrement_spec(), ..self }
        } else {
            self
        }
    }

    pub open spec fn is_ready_spec(self) -> bool {
        self.phase == StationPhase::BackoffCountdown && self.backoff.counter == 0
    }

    /// Stop contending until the medium is idle again.
    pub fn wait_for_medium(&mut self)
        ensures
            *final(self) == old(self).wait_for_medium_spec(),
    {
        self.defer_slots_remaining = 0;
        self.phase = StationPhase::WaitingForMedium;
    }

    /// Start the DIFS defer; with no defer, resume the backoff countdown at once.
    pub fn enter_defer(&mut self, defer_slots: u32)
        ensures
            *final(self) == old(self).enter_defer_spec(defer_slots),
    {
        self.defer_slots_remaining = defer_slots;
        if defer_slots == 0 {
            self.backoff.resume();
            self.phase = StationPhase::BackoffCountdown;
        } else {
            self.phase = StationPhase::Defer;
        }
    }

    /// The medium turned busy: a counting station keeps its counter for later.
    pub fn freeze_for_busy(&mut self)
        ensures
            *final(self) == old(self).freeze_for_busy_spec(),
    {
        if self.phase == StationPhase::BackoffCountdown {
            self.backoff.freeze();
        }
        self.wait_for_medium();
    }

    /// One idle slot passes: the defer counts down first, then the backoff counter.
    pub fn advance_idle_slot(&mut self)
        ensures
            *final(self) == old(self).advance_idle_slot_spec(),
    {
        if self.phase == StationPhase::Defer {
            if self.defer_slots_remaining > 0 {
                self.defer_slots_remaining -= 1;
            }
            if self.defer_slots_remaining == 0 {
                self.backoff.resume();
                self.phase = StationPhase::BackoffCountdown;
            }
        } else if self.phase == StationPhase::BackoffCountdown {
            self.backoff.decrement();
        }
    }

    pub fn is_ready_to_transmit(&self) -> (ready: bool)
        ensures
            ready == self.is_ready_spec(),
    {
        self.phase == StationPhase::BackoffCountdown && self.backoff_counter() == 0
    }

    pub fn current_cw(&self) -> (cw: u32)
        ensures
            cw == self.window.current,
    {
        self.window.current
    }

    pub fn backoff_counter(&self) -> (counter: u32)
        ensures
            counter == self.backoff.counter,
    {
        self.backoff.counter
    }
}

/// `n` idle slots in a row.
pub open spec fn idle_slots_times(station: StationRuntime, n: nat) -> StationRuntime
    decreases n,
{
    if n == 0 {
        station
    } else {
        idle_slots_times(station, (n - 1) as nat).advance_idle_slot_spec()
    }
}

/// Freeze and resume: a station counting down when the medium turns busy, that then
/// defers for `d > 0` slots after the medium is idle again, is back to counting down
/// after exactly those `d` idle slots, with the counter it held when the medium turned
/// busy and nothing frozen.
pub proof fn lemma_freeze_defer_resume(station: StationRuntime, d: u32)
    requires
        station.phase == StationPhase::BackoffCountdown,
        d > 0,
    ensures
        ({
            let resumed = idle_slots_times(station.freeze_for_busy_spec().enter_defer_spec(d), d as nat);
            &&& resumed.phase == StationPhase::BackoffCountdown
            &&& resumed.backoff.counter == station.backoff.counter
            &&& resumed.backoff.frozen_counter is None
        }),
{
    let start = station.freeze_for_busy_spec().enter_defer_spec(d);
    assert forall|k: nat| k < d implies {
        let s = #[trigger] idle_slots_times(start, k);
        &&& s.phase == StationPhase::Defer
        &&& s.defer_slots_remaining == d - k
        &&& s.backoff == start.backoff
    } by {
        lemma_defer_countdown(start, d, k);
    }
    lemma_defer_countdown(start, d, (d - 1) as nat);
}

proof fn lemma_defer_countdown(start: StationRuntime, d: u32, k: nat)
    requires
        start.phase == StationPhase::Defer,
        start.defer_slots_remaining == d,
        k < d,
    ensures
        idle_slots_times(start, k).phase == StationPhase::Defer,
        idle_slots_times(start, k).defer_slots_remaining == d - k,
        idle_slots_times(start, k).backoff == start.backoff,
    decreases k,
{
    if k > 0 {
        lemma_defer_countdown(start, d, (k - 1) as nat);
    }
}

} // verus!
