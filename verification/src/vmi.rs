//! Values that cross the boundary between host and guest: the two words
//! that carry a call's arguments or result, and the codes a guest exits with.
use vstd::prelude::*;

verus! {

/// The two words that carry the arguments or the result of a call between
/// host and guest, in registers `r8` and `r9`.
#[derive(Debug, Clone, Copy, PartialEq, Eq, Structural)]
pub struct Transport {
    pub primary: u64,
    pub secondary: u64,
}

impl Transport {
    pub fn new(primary: u64, secondary: u64) -> (r: Transport)
        ensures
            r.primary == primary,
            r.secondary == secondary,
    {
        Transport { primary, secondary }
    }

    pub fn primary(&self) -> (r: u64)
        ensures
            r == self.primary,
    {
        self.primary
    }

    pub fn secondary(&self) -> (r: u64)
        ensures
            r == self.secondary,
    {
        self.secondary
    }
}

/// Why the guest halted.
#[derive(Debug, Clone, Copy, PartialEq, Eq, Structural)]
pub enum ExitCode {
    /// The guest is done.
    Normal,
    /// The guest finished its setup and waits for calls.
    Ready,
    /// The guest returned from a call of the host.
    Return,
    /// The memory layout table is too small.
    InvalidMemoryLayoutTableTooSmall,
    /// The memory layout table is not aligned.
    InvalidMemoryLayoutTableMisaligned,
    /// The memory layout is invalid.
    InvalidMemoryLayout,
    /// The guest's allocator failed.
    AllocatorFailed,
    /// Any other code.
    Other(u8),
}

} // verus!
