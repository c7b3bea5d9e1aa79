//! The ways an invocation can fail. Each is terminal: nothing is retried, and
//! the account's bytes are left as they were.

use vstd::prelude::*;

verus! {

/// Why an invocation failed.
#[derive(Clone, Copy, Debug, PartialEq, Eq, Structural)]
pub enum CounterError {
    /// The instruction bytes are too short or start with an unknown tag.
    MalformedInstruction,
    /// The account's bytes are too short to hold a counter record.
    MalformedRecord,
    /// No account was handed in.
    MissingAccount,
    /// The account's buffer cannot take the encoded record.
    WriteFailure,
}

} // verus!
