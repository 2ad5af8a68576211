//! Error kinds returned by the engine.

use vstd::prelude::*;

verus! {

/// Every way an operation of the engine can fail.
#[derive(Clone, Copy, Debug, PartialEq, Eq, Structural)]
pub enum Error {
    /// Truncated or non-canonical wire bytes.
    MalformedEncoding,
    /// Structurally invalid op stream (unbalanced flow ops, undecodable op,
    /// oversized push, op budget exceeded).
    MalformedScript,
    /// An op needed more stack items than were present.
    StackUnderflow,
    /// A disabled opcode appeared in the script.
    DisabledOpcode,
    /// A numeric operand was not minimally encoded.
    PushNonMinimalData,
    /// The script ran but an op or the final stack check rejected it.
    ScriptEvaluationFailed,
    /// A signature check failed during evaluation.
    SignatureInvalid,
    /// The address type has no locking-script template here.
    UnsupportedAddressType,
    /// Send amount plus fee exceeds the available balance.
    InsufficientFunds,
}

} // verus!
