use vstd::prelude::*;

use crate::error::SimError;

verus! {

/// The seeds of a sweep's trials: trial `t` runs with `base_seed + t`.
#[derive(Debug, Clone, Copy, PartialEq, Eq, Structural)]
pub struct TrialSeedSchedule {
    pub base_seed: u64,
    pub trials: u32,
}

impl TrialSeedSchedule {
    /// A schedule of `trials` trials; there must be at least one.
    pub fn new(base_seed: u64, trials: u32) -> (result: Result<Self, SimError>)
        ensures
            trials == 0 ==> result == Err::<Self, SimError>(SimError::ZeroTrials),
            trials > 0 ==> result == Ok::<Self, SimError>(TrialSeedSchedule { base_seed, trials }),
    {
        if trials == 0 {
            return Err(SimError::ZeroTrials);
        }
        Ok(Self { base_seed, trials })
    }

    /// The seed of trial `trial`: an index past the last trial, or a seed beyond `u64::MAX`,
    /// is an error.
    pub fn seed_for_trial(&self, trial: u32) -> (result: Result<u64, SimError>)
        ensures
            trial >= self.trials ==> result == Err::<u64, SimError>(SimError::TrialOutOfRange),
            trial < self.trials && self.base_seed + trial > u64::MAX ==> result == Err::<
                u64,
                SimError,
            >(SimError::SeedOverflow),
            trial < self.trials && self.base_seed + trial <= u64::MAX ==> result == Ok::<
                u64,
                SimError,
            >((self.base_seed + trial) as u64),
    {
        if trial >= self.trials {
            return Err(SimError::TrialOutOfRange);
        }
        match self.base_seed.checked_add(trial as u64) {
            Some(seed) => Ok(seed),
            None => Err(SimError::SeedOverflow),
        }
    }
}

} // verus!
