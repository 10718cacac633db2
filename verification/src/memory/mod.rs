//! Host memory regions that back guest physical memory, their access
//! permissions, and page alignment.
use vstd::prelude::*;
use crate::mem::{PAGE_4KIB, align_ceil, align_floor, floor_to};

pub mod perm;
pub mod region;

verus! {

/// Page size of an architecture, and alignment of addresses to it.
pub trait Align {
    /// The page size in bytes.
    spec fn spec_alignment() -> u64;

    /// The page size in bytes.
    fn alignment() -> (r: u64)
        ensures
            r == Self::spec_alignment(),
            r > 0,
    ;

    /// `addr` is at the start of a page.
    fn is_aligned(addr: u64) -> (r: bool)
        ensures
            r == (addr % Self::spec_alignment() == 0),
    ;

    /// `addr` rounded down to the start of its page.
    fn align_floor(addr: u64) -> (r: u64)
        ensures
            r == floor_to(addr as int, Self::spec_alignment() as int),
    ;

    /// `addr` rounded up to the start of a page.
    fn align_ceil(addr: u64) -> (r: u64)
        requires
            addr + Self::spec_alignment() - 1 <= u64::MAX,
        ensures
            r as int == if addr % Self::spec_alignment() == 0 {
                addr as int
            } else {
                floor_to(addr as int, Self::spec_alignment() as int) + Self::spec_alignment()
            },
    ;
}

/// The 4 KiB pages of x86-64.
#[derive(Copy, Clone, Debug, PartialEq, Eq, Structural, PartialOrd, Ord)]
pub struct X86_64;

/// The 4 KiB pages of 64-bit ARM.
#[derive(Copy, Clone, Debug, PartialEq, Eq, Structural, PartialOrd, Ord)]
pub struct Arm64;

impl Align for X86_64 {
    open spec fn spec_alignment() -> u64 {
        PAGE_4KIB
    }

    fn alignment() -> (r: u64) {
        PAGE_4KIB
    }

    fn is_aligned(addr: u64) -> (r: bool) {
        addr % PAGE_4KIB == 0
    }

    fn align_floor(addr: u64) -> (r: u64) {
        align_floor(addr)
    }

    fn align_ceil(addr: u64) -> (r: u64) {
        align_ceil(addr)
    }
}

impl Align for Arm64 {
    open spec fn spec_alignment() -> u64 {
        PAGE_4KIB
    }

    fn alignment() -> (r: u64) {
        PAGE_4KIB
    }

    fn is_aligned(addr: u64) -> (r: bool) {
        addr % PAGE_4KIB == 0
    }

    fn align_floor(addr: u64) -> (r: u64) {
        align_floor(addr)
    }

    fn align_ceil(addr: u64) -> (r: u64) {
        align_ceil(addr)
    }
}

} // verus!
