//! Verified core of a bare-metal KVM host: guest page-table construction,
//! descriptor tables, function linking between host and guest, and the
//! bookkeeping around them.

pub mod mem;
pub mod pagetable;
pub mod paging;
pub mod descriptors;
pub mod hash;
pub mod utils;
pub mod linker;
pub mod elf;
pub mod memory;
pub mod outside;
pub mod vmi;
pub mod vm;
pub mod runtime;

