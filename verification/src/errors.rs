//! Error kinds shared by both ends of the protocol.
use vstd::prelude::*;

verus! {

/// Why an operation of the library (or of the surrounding tool) failed.
///
/// The frame decoder reports `InvalidFrame` on any shape violation of a
/// header and `UnsupportedVersion` when the protocol name is right but the
/// version field is not a recognized value. A request of a type that may
/// not travel in its direction is a `ProtocolViolation`. The remaining
/// kinds are produced while parsing bodies, validating the artifact cache,
/// or by the unverified edges of the tool.
#[derive(Clone, Copy, Debug, PartialEq, Eq, Structural)]
pub enum RepairError {
    TransportError,
    InvalidFrame,
    ProtocolViolation,
    UnsupportedVersion,
    BadPath,
    DigestMismatch,
    IoError,
    CacheInvariantViolation,
    DecompressionError,
}

} // verus!
