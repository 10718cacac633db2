//! Access permissions of host memory regions, as marker types.
use vstd::prelude::*;

verus! {

/// A permission a region of host memory is mapped with.
pub trait Perm {
    /// The host may read the region.
    fn readable() -> bool;

    /// The host may write the region.
    fn writable() -> bool;
}

/// A permission under which the host can access the region at all.
pub trait Accessible: Perm {}

/// A permission that grants reading.
pub trait Readable: Perm {}

/// A permission that grants writing.
pub trait Writable: Perm {}

/// A permission that grants neither reading nor writing.
pub trait Anon: Perm {}

/// Read access only.
#[derive(Debug, Clone, Copy)]
pub struct ReadOnly;

/// Write access only.
#[derive(Debug, Clone, Copy)]
pub struct WriteOnly;

/// Read and write access.
#[derive(Debug, Clone, Copy)]
pub struct ReadWrite;

/// No host access: the memory belongs to the guest alone.
#[derive(Debug, Clone, Copy)]
pub struct GuestOnly;

impl Perm for ReadOnly {
    fn readable() -> (r: bool)
        ensures
            r,
    {
        true
    }

    fn writable() -> (r: bool)
        ensures
            !r,
    {
        false
    }
}

impl Perm for WriteOnly {
    fn readable() -> (r: bool)
        ensures
            !r,
    {
        false
    }

    fn writable() -> (r: bool)
        ensures
            r,
    {
        true
    }
}

impl Perm for ReadWrite {
    fn readable() -> (r: bool)
        ensures
            r,
    {
        true
    }

    fn writable() -> (r: bool)
        ensures
            r,
    {
        true
    }
}

impl Perm for GuestOnly {
    fn readable() -> (r: bool)
        ensures
            !r,
    {
        false
    }

    fn writable() -> (r: bool)
        ensures
            !r,
    {
        false
    }
}

impl Accessible for ReadOnly {}

impl Accessible for WriteOnly {}

impl Accessible for ReadWrite {}

impl Readable for ReadOnly {}

impl Readable for ReadWrite {}

impl Writable for WriteOnly {}

impl Writable for ReadWrite {}

impl Anon for GuestOnly {}

} // verus!
