//! Failures that the byte-level readers and the container decoder report.

use vstd::prelude::*;

verus! {

/// Why a read over a byte buffer did not succeed.
#[derive(Debug, Clone, Copy, PartialEq, Eq, Structural, Hash)]
pub enum ParseError {
    /// The bytes at the cursor differ from the literal that was asked for.
    UnexpectedBytes,
    /// The buffer ended before a fixed-length region or a terminator was complete.
    UnexpectedEof,
    /// A tagged field's marker is not at the cursor.
    TagMismatch,
    /// One of the container's two magic sequences is not where it has to be.
    BadMagic,
}

} // verus!
