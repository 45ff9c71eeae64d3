//! Error kinds and the codes under which a system call reports them.

use vstd::prelude::*;

verus! {

/// The code of a system call that succeeded.
pub const SUCCESS: isize = 0;

/// The code of a system call that failed for any reason but a detected deadlock.
pub const FAILURE: isize = -1;

/// The code of an acquisition that the deadlock detector refused.
pub const DEADLOCK: isize = -0xDEAD;

/// Why a request was refused.
#[derive(Clone, Copy, Debug, PartialEq, Eq, Structural)]
pub enum Error {
    /// A misaligned address, permission bits that are zero or unsupported, or an
    /// identifier that names no slot.
    InvalidArgument,
    /// The range to map intersects a region that is already mapped.
    Overlap,
    /// No region has exactly the range to unmap, or the slot to close is empty.
    NotFound,
    /// Granting the request could leave tasks waiting on each other for ever.
    DeadlockDetected,
    /// A slot list or a count has reached what the machine can hold.
    ResourceExhausted,
}

impl Error {
    /// The code of this error as a mathematical integer.
    pub open spec fn spec_code(self) -> int {
        match self {
            Error::DeadlockDetected => -0xDEAD,
            _ => -1,
        }
    }

    /// The negative code that a system call returns for this error.
    pub fn code(self) -> (code: isize)
        ensures
            code == self.spec_code(),
            code < 0,
    {
        match self {
            Error::DeadlockDetected => DEADLOCK,
            _ => FAILURE,
        }
    }
}

} // verus!
