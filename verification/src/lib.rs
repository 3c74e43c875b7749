//! Binary codec for values that cross a byte-oriented boundary: call
//! parameters, storage records and notification events.

pub mod abi;
pub mod contract;
pub mod database;
pub mod mock;
pub mod types;
