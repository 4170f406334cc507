use vstd::prelude::*;

verus! {

/// Totals over all stations of one run. Averages and rates are these totals divided by
/// the successful packets and by the run's slots.
#[derive(Debug, Clone, Copy, PartialEq, Eq, Structural)]
pub struct AggregateReport {
    pub total_successful_packets: u64,
    pub collision_events: u64,
    pub total_delay_slots: u64,
}

/// Totals over the stations of one class.
#[derive(Debug, Clone, PartialEq, Eq)]
pub struct ClassReport {
    pub class_name: String,
    pub users: u32,
    pub successful_packets: u64,
    pub collision_attempts: u64,
    pub total_delay_slots: u64,
}

/// The outcome of one run: its length and payload, the totals, and the classes in
/// lexicographic order of their names.
#[derive(Debug, Clone, PartialEq, Eq)]
pub struct SimulationReport {
    pub total_slots: u64,
    pub payload_bits: u64,
    pub aggregate: AggregateReport,
    pub per_class: Vec<ClassReport>,
}

} // verus!
