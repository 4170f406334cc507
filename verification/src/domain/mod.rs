pub mod config;
pub mod report;
pub mod scenario;
