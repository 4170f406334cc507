pub mod backoff;
pub mod medium;
pub mod phase;
pub mod resolver;
pub mod window;
pub mod timing;
pub mod station;
pub mod metrics;
pub mod rng;
pub mod model;
pub mod invariants;
pub mod engine;
pub mod contention;
