//! The ways an operation of the engine can fail.

use vstd::prelude::*;

verus! {

/// Why a request was turned down. Every check is made eagerly and the first
/// one that fails decides the kind.
#[derive(Clone, Copy, Debug, PartialEq, Eq, Structural)]
pub enum IntroError {
    /// The request bytes do not decode to an instruction, or the request
    /// names an operation the engine does not carry out.
    MalformedRequest,
    /// The acting identity did not sign the request.
    MissingSignature,
    /// A supplied address is not the one derived from the identities.
    AddressMismatch,
    /// The encoded record does not fit the capacity of its storage.
    RecordTooLarge,
    /// The storage already holds an initialized record.
    AlreadyInitialized,
    /// The storage does not hold an initialized record.
    NotInitialized,
    /// The record is not under the authority of this engine.
    OwnershipViolation,
    /// The ledger did not grant the storage that was asked for.
    StorageAllocationFailed,
    /// The stored bytes are not the encoding of a record.
    DataCorruption,
}

} // verus!
