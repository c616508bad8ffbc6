//! Errors reported by the library.

use vstd::prelude::*;

verus! {

/// Failure kinds of the persistence round-trip.
///
/// Observation failures are never reported through this type: a failed
/// observation only leaves the corresponding snapshot field absent.
#[derive(Clone, Copy, PartialEq, Eq, Structural, Debug)]
pub enum Error {
    /// The encoded state is malformed or of an incompatible schema.
    SerializationError,
    /// The state file could not be created, opened, read or written.
    IoError,
    /// Key derivation, authentication or cipher failure.
    EncryptionError,
}

} // verus!
