//! Core of a battery-power sampler: an exact unit model for energy counter
//! readings, a bounded newest-first sample history, and a drift-corrected
//! scheduler that keeps sampling ticks aligned to a fixed time grid.

pub mod args;
mod clock;
pub mod engine;
pub mod errors;
pub mod reading;
pub mod sched;
pub mod units;

pub use engine::Datapoint;
pub use engine::Measurement;
pub use engine::NumSamples;
pub use errors::Error;
pub use units::mWh;
pub use units::uWh;
