//! Status codes returned by the fallible operations of the kernel core.

use vstd::prelude::*;

verus! {

/// The error half of every fallible kernel operation.
///
/// Every failure is an immediately returned code; nothing in the core is
/// reported by unwinding.
#[derive(Debug, Clone, Copy, PartialEq, Eq, Structural)]
#[allow(non_camel_case_types)]
pub enum ZxError {
    /// A handle value that is not present in the process's handle table.
    BAD_HANDLE,
    /// A handle resolved to an object of a different kind than requested.
    WRONG_TYPE,
    /// A rights or policy violation.
    ACCESS_DENIED,
    /// The operation is invalid for the object's current lifecycle state.
    BAD_STATE,
    /// A lookup by id missed.
    NOT_FOUND,
    /// The channel peer endpoint is gone.
    PEER_CLOSED,
    /// A non-blocking operation has nothing to do yet.
    SHOULD_WAIT,
    /// A parameter lies outside the permitted range.
    OUT_OF_RANGE,
    /// A malformed parameter.
    INVALID_ARGS,
    /// An allocation failed.
    NO_MEMORY,
    /// An absolute policy update collided with an entry that is already set.
    ALREADY_EXISTS,
    /// A caller-supplied buffer is too small for the data.
    BUFFER_TOO_SMALL,
    /// The operation is not meaningful for this object kind.
    NOT_SUPPORTED,
}

/// The result type of every fallible kernel operation.
pub type ZxResult<T = ()> = Result<T, ZxError>;

} // verus!
