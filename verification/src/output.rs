use vstd::prelude::*;

use crate::domain::config::TimingPreset;

verus! {

/// One class of one trial of an experiment, with the totals its averages and rates are
/// derived from (delay over successes, payload bits over slots).
#[derive(Debug, Clone, PartialEq, Eq)]
pub struct ExperimentRecord {
    pub scenario: String,
    pub timing_preset: TimingPreset,
    pub trial: u32,
    pub seed: u64,
    pub total_users: u32,
    pub cw_min: Option<u32>,
    pub lower_cw_min: Option<u32>,
    pub higher_cw_min: Option<u32>,
    pub class_name: String,
    pub class_users: u32,
    pub successful_packets: u64,
    pub collision_attempts: u64,
    pub total_delay_slots: u64,
    pub total_slots: u64,
    pub payload_bits: u64,
}

} // verus!
