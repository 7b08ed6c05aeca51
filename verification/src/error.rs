//! The ways in which a stream can fail.

use vstd::prelude::*;

verus! {

/// Why an operation on a stream did not succeed.
#[derive(Clone, Copy, Debug, PartialEq, Eq, Structural)]
pub enum StreamError {
    /// The ciphertext stream ended before its salt was complete.
    TruncatedHeader,
    /// A block did not authenticate: it was altered, cut short, moved, or sealed under
    /// another key or salt.
    Authentication,
    /// More bytes were offered to a block buffer than it has room for.
    Capacity,
    /// The stream would need more blocks than its counter can number.
    Exhausted,
    /// The operating system gave no random bytes for a salt.
    Entropy,
    /// The compression codec rejected its input.
    Compression,
}

} // verus!
