use vstd::prelude::*;

verus! {

/// Totals over all stations of one run of the plain slotted model.
#[derive(Debug, Clone, Copy, PartialEq, Eq, Structural)]
pub struct AggregateMetrics {
    pub total_successful_packets: u64,
    pub collision_events: u64,
    pub total_delay_slots: u64,
}

/// Totals over the stations of one class.
#[derive(Debug, Clone, PartialEq, Eq)]
pub struct ClassMetrics {
    pub class_name: String,
    pub users: u32,
    pub successful_packets: u64,
    pub collision_attempts: u64,
    pub total_delay_slots: u64,
}

/// The outcome of one run of the plain slotted model, classes in lexicographic order.
#[derive(Debug, Clone, PartialEq, Eq)]
pub struct SimulationResult {
    pub total_slots: u64,
    pub payload_bits: u64,
    pub aggregate: AggregateMetrics,
    pub per_class: Vec<ClassMetrics>,
}

} // verus!
