//! The codec: byte formats, the cursor and the accumulator, the typed
//! codec capability and the event builder.

pub mod codec;
pub mod error;
pub mod event_builder;
pub mod sink;
pub mod source;
pub mod wire;

pub use self::codec::AbiCodec;
pub use self::error::Error;
pub use self::event_builder::{EventBuilder, VmValueBuilderCommon};
pub use self::sink::Sink;
pub use self::source::Source;
