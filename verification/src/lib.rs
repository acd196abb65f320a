//! A two-party file-synchronization library: a server exposes a directory
//! tree over a framed byte protocol, and a client repairs missing or
//! corrupted local files by comparing cryptographic digests.
//!
//! The verified core covers the 64-byte frame codec, the manifest and
//! inventory text formats, the client-side reconciler, the server-side
//! compressed-artifact cache, and the chunked streaming transfer framing.
//! Network and disk access live outside the library and hand it plain
//! values.
pub mod bytes;
pub mod cache;
pub mod client;
pub mod compress;
pub mod digest;
pub mod errors;
pub mod frame;
pub mod manifest;
pub mod pool;
pub mod reconcile;
pub mod server;
pub mod transfer;
