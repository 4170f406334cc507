use vstd::prelude::*;

use crate::domain::scenario::TimingConfig;

verus! {

/// The logical defer and busy durations derived from a timing configuration.
#[derive(Debug, Clone, Copy, PartialEq, Eq, Structural)]
pub struct TimingModel {
    pub config: TimingConfig,
}

/// `a - 1 + b`, where the subtraction stops at zero and the addition at `u32::MAX`.
pub open spec fn busy_after(a: u32, b: u32) -> u32 {
    let base: int = if a > 0 { a - 1 } else { 0 };
    if base + b > u32::MAX { u32::MAX } else { (base + b) as u32 }
}

impl TimingModel {
    pub open spec fn success_busy_spec(self) -> u32 {
        busy_after(self.config.tx_duration_slots, self.config.sifs_slots)
    }

    pub open spec fn collision_busy_spec(self) -> u32 {
        busy_after(self.config.tx_duration_slots, self.config.collision_penalty_slots)
    }

    pub fn new(config: TimingConfig) -> (model: Self)
        ensures
            model.config == config,
    {
        Self { config }
    }

    /// Idle slots a station must observe before it counts down: the DIFS.
    pub fn defer_slots(&self) -> (slots: u32)
        ensures
            slots == self.config.difs_slots,
    {
        self.config.difs_slots
    }

    /// Busy slots after a success: the rest of the transmission plus SIFS.
    pub fn busy_slots_after_success(&self) -> (slots: u32)
        ensures
            slots == self.success_busy_spec(),
    {
        self.config.tx_duration_slots.saturating_sub(1).saturating_add(self.config.sifs_slots)
    }

    /// Busy slots after a collision: the rest of the transmission plus the collision penalty.
    pub fn busy_slots_after_collision(&self) -> (slots: u32)
        ensures
            slots == self.collision_busy_spec(),
    {
        self.config.tx_duration_slots.saturating_sub(1).saturating_add(
            self.config.collision_penalty_slots,
        )
    }
}

/// A success holds the medium for the rest of the transmission plus SIFS, and a collision
/// for the rest of the transmission plus the collision penalty (within `u32`).
pub proof fn lemma_busy_durations(t: TimingModel)
    requires
        t.config.tx_duration_slots >= 1,
    ensures
        t.config.tx_duration_slots - 1 + t.config.sifs_slots <= u32::MAX ==> t.success_busy_spec()
            == t.config.tx_duration_slots - 1 + t.config.sifs_slots,
        t.config.tx_duration_slots - 1 + t.config.collision_penalty_slots <= u32::MAX ==> t.collision_busy_spec()
            == t.config.tx_duration_slots - 1 + t.config.collision_penalty_slots,
{
}

} // verus!
