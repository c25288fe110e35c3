//! Integer core of the SV2 variable-difficulty (vardiff) controllers.
//!
//! Floating-point estimation and gain arithmetic live outside this crate;
//! everything here is the counting, gating, table and encoding logic the
//! controllers are built on, with its behaviour stated as contracts.

pub mod champion;
pub mod classic;
pub mod error;
pub mod qtable;
pub mod step_function;
pub mod telemetry;
pub mod testing;
pub mod vardiff;
