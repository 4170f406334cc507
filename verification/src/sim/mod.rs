pub mod dcf;
pub mod runner;

pub use dcf::engine::{SimulationTrace, TraceFrame};
pub use runner::{run, simulate, trace, validate_range_step};
