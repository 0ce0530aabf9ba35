//! Ground-station core: recovers telemetry records from a raw device byte
//! stream, keeps them in a time-ordered store and tracks the life cycle of
//! the one session that may be attached to a device at a time.

pub mod codec;
pub mod crc;
pub mod history;
pub mod ingest;
pub mod serial;
pub mod session;
pub mod store;
pub mod streaming;
pub mod sync;
pub mod telemetry;
