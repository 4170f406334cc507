pub mod experiments;
pub mod metrics;
pub mod model;
pub mod simulator;
