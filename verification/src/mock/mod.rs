//! A stand-in for the host: an explicitly owned context with storage,
//! chain state, witnesses and the notifications that were emitted.

pub mod runtime;
pub mod storage;

pub use self::runtime::Runtime;
pub use self::storage::Storage;
