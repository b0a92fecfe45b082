//! A verified core for a git-lfs filter and custom-transfer bridge backed by
//! the Walrus blob store.
//!
//! The library covers the logic of the bridge: the content-pointer text
//! format, the line-delimited JSON event protocol, the hash-to-blob-id
//! mapping document, and the transfer session state machine. Process wiring,
//! file access and the Walrus subprocess itself live outside the library.

pub mod bytes;
pub mod digest;
pub mod event;
pub mod json;
pub mod machine;
pub mod mapping;
pub mod pipeline;
pub mod pointer;
pub mod status;
pub mod store;
pub mod walrus;
