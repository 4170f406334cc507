pub mod cli;
pub mod demo;
pub mod domain;
pub mod error;
pub mod experiments;
pub mod slotted;
pub mod summary;
pub mod output;
pub mod sim;
pub mod text;

pub use domain::config::{SimulationConfig, SimulationSettings, SweepParameters, TimingPreset};
pub use domain::report::{AggregateReport, ClassReport, SimulationReport};
pub use domain::scenario::{Scenario, StationClass, TimingConfig, WindowConfig};
pub use error::SimError;
pub use sim::{run, simulate, trace, validate_range_step, SimulationTrace, TraceFrame};
