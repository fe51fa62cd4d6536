//! A small SQL-over-the-wire server core: the request and result data model,
//! a tagged binary codec, length-prefixed framing, a query executor over one
//! shared SQLite handle, and the decision logic of the two session loops.
pub mod types;
pub mod format;
pub mod codec;
pub mod frame;
pub mod executor;
pub mod session;
pub mod host;
