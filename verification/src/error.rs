//! The reasons for which an operation is refused.

use vstd::prelude::*;

verus! {

/// The single reason with which a failed operation ends.
#[derive(Clone, Copy, Debug, PartialEq, Eq, Structural)]
pub enum LedgerError {
    /// The payload is not the encoding of an operation.
    InvalidInstruction,
    /// A slot does not start with the record of an initialized profile.
    MalformedAccountData,
    /// The profile lacks the credential or the friends that posting needs.
    PermissionDenied,
    /// The friend was asked before.
    DuplicateRequest,
    /// No post stands at the place that a comment names.
    NotFound,
    /// A step of the credential issuance did not go through.
    BridgeFailure,
    /// The record does not fit into its slot.
    OutOfSpace,
}

} // verus!
