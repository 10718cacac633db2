//! Where the host places the guest's system structures, stack and shared
//! memory in guest physical memory, and the layout entries describing them.
use vstd::prelude::*;
use crate::descriptors::{GDT_PAGE_REQUIRED, IDT_PAGE_REQUIRED};
use crate::mem::{
    FLAG_CODE, FLAG_DATA, FLAG_PRESENT, FLAG_READ, FLAG_SHARED_FOREIGN, FLAG_SHARED_OWNED, FLAG_STACK,
    FLAG_WRITE, Flags, LayoutTableEntry, PAGE_1GIB, PAGE_2MIB, PAGE_4KIB, align_floor, as_virt_addr,
    floor_to, phys_of_virt, spec_as_virt_addr,
};

verus! {

/// The guest physical address of the system region: the start of the upper
/// half of the 48-bit address space.
pub const GUEST_SYSTEM_ADDR: u64 = 0x8000_0000_0000;

/// The guest physical address of the page tables.
pub const GUEST_PAGING_ADDR: u64 = 0x8000_0000_2000;

/// Alignment of the initial stack pointer.
pub const STACK_ALIGN: u64 = 16;

/// The guest physical address of the system region, which holds the global
/// and the interrupt descriptor table.
pub fn guest_system_addr() -> (r: u64)
    ensures
        r == GUEST_SYSTEM_ADDR,
{
    GUEST_SYSTEM_ADDR
}

/// The guest physical address of the page tables: right after the
/// descriptor tables in the system region.
pub fn guest_paging_addr() -> (r: u64)
    ensures
        r == GUEST_SYSTEM_ADDR + (IDT_PAGE_REQUIRED + GDT_PAGE_REQUIRED) * PAGE_4KIB,
        r == GUEST_PAGING_ADDR,
{
    guest_system_addr() + (IDT_PAGE_REQUIRED as u64) * PAGE_4KIB + (GDT_PAGE_REQUIRED as u64)
        * PAGE_4KIB
}

/// The guest physical address the stack grows down from: the page below
/// the system region.
pub fn guest_stack_addr() -> (r: u64)
    ensures
        r == floor_to(GUEST_SYSTEM_ADDR - 1, PAGE_4KIB as int),
        r == GUEST_STACK_ADDR,
{
    align_floor(guest_system_addr() - 1)
}

/// `value` rounded down to the largest page size that `reference` is
/// aligned to: 1 GiB, 2 MiB or 4 KiB.
pub open spec fn align_by_ref_spec(value: u64, reference: u64) -> int {
    if reference % PAGE_1GIB == 0 {
        floor_to(value as int, PAGE_1GIB as int)
    } else if reference % PAGE_2MIB == 0 {
        floor_to(value as int, PAGE_2MIB as int)
    } else {
        floor_to(value as int, PAGE_4KIB as int)
    }
}

/// Round `value` down to the largest page size that `reference` is aligned
/// to, so that a region at the result has the alignment of the host memory
/// at `reference`. The result is not 0.
pub fn align_by_ref(value: u64, reference: u64) -> (r: u64)
    requires
        align_by_ref_spec(value, reference) > 0,
    ensures
        r == align_by_ref_spec(value, reference),
{
    floor_by_ref(value, reference)
}

/// `value` rounded down like `align_by_ref`, which may give 0.
pub fn floor_by_ref(value: u64, reference: u64) -> (r: u64)
    ensures
        r == align_by_ref_spec(value, reference),
{
    if reference % PAGE_1GIB == 0 {
        value - value % PAGE_1GIB
    } else if reference % PAGE_2MIB == 0 {
        value - value % PAGE_2MIB
    } else {
        align_floor(value)
    }
}

/// The layout entry of the stack: `capacity` bytes below `base`, rounded
/// down to a page.
pub open spec fn stack_entry(capacity: usize, base: u64) -> LayoutTableEntry {
    let addr = floor_to(base - capacity, PAGE_4KIB as int) as u64;
    LayoutTableEntry {
        paddr: addr,
        vaddr: spec_as_virt_addr(addr),
        len: (capacity / 4096) as u32,
        flags: Flags { bits: FLAG_PRESENT | FLAG_DATA | FLAG_READ | FLAG_WRITE | FLAG_STACK },
    }
}

/// The layout entry of a stack of `capacity` bytes that grows down from
/// `base`: its lowest page, and its size in pages.
pub fn stack_layout(capacity: usize, base: u64) -> (r: LayoutTableEntry)
    requires
        capacity <= base,
    ensures
        r == stack_entry(capacity, base),
{
    let addr = align_floor(base - capacity as u64);
    let size = (capacity as u64 / PAGE_4KIB) as u32;
    let flags = Flags::from_bits(FLAG_PRESENT | FLAG_DATA | FLAG_READ | FLAG_WRITE | FLAG_STACK);
    LayoutTableEntry::new(addr, as_virt_addr(addr), size, flags)
}

/// The layout entry of shared memory at guest physical address `addr` that
/// the host holds at `host_addr`: the guest maps it at the canonical form of
/// the host's address; `pages` pages; owned by the guest if `owned`, by the
/// host otherwise.
pub open spec fn shared_entry(addr: u64, host_addr: u64, pages: u32, owned: bool) -> LayoutTableEntry {
    LayoutTableEntry {
        paddr: addr,
        vaddr: spec_as_virt_addr(host_addr & 0xFFFF_FFFF_FFFFu64),
        len: pages,
        flags: Flags {
            bits: FLAG_PRESENT | FLAG_DATA | FLAG_READ | FLAG_WRITE | if owned {
                FLAG_SHARED_OWNED
            } else {
                FLAG_SHARED_FOREIGN
            },
        },
    }
}

/// The layout entry of shared memory (see `shared_entry`).
pub fn shared_layout(addr: u64, host_addr: u64, pages: u32, owned: bool) -> (r: LayoutTableEntry)
    ensures
        r == shared_entry(addr, host_addr, pages, owned),
{
    let kind = if owned {
        FLAG_SHARED_OWNED
    } else {
        FLAG_SHARED_FOREIGN
    };
    let flags = Flags::from_bits(FLAG_PRESENT | FLAG_DATA | FLAG_READ | FLAG_WRITE | kind);
    LayoutTableEntry::empty().set_paddr(addr).set_vaddr(as_virt_addr(phys_of_virt(host_addr))).set_len(
        pages,
    ).set_flags(flags)
}

/// The flags `bits` describe memory the guest may read and write but not
/// execute: a present data region that is readable and writable, and no
/// code.
pub open spec fn writable_data(bits: u32) -> bool {
    &&& bits & FLAG_PRESENT != 0
    &&& bits & FLAG_DATA != 0
    &&& bits & FLAG_READ != 0
    &&& bits & FLAG_WRITE != 0
    &&& bits & FLAG_CODE == 0
}

/// The guest's stack is present, readable and writable data, marked as the
/// stack and as nothing else (no code, no shared memory), and it lies in
/// whole pages just below `base`: `capacity` bytes (a whole number of
/// pages) from a page boundary up to at most `base`, which its page count
/// gives where it fits the entry (below 16 TiB).
pub proof fn law_stack_entry(capacity: usize, base: u64)
    requires
        capacity <= base,
        capacity % 4096 == 0,
    ensures
        ({
            let e = stack_entry(capacity, base);
            &&& writable_data(e.flags.bits)
            &&& e.flags.spec_is_write()
            &&& !e.flags.spec_is_code()
            &&& e.flags.bits & FLAG_STACK != 0
            &&& e.flags.bits & (FLAG_SHARED_OWNED | FLAG_SHARED_FOREIGN) == 0
            &&& e.paddr % 4096 == 0
            &&& e.paddr + capacity <= base
            &&& base - (e.paddr + capacity) < 4096
            &&& capacity < 0x1000_0000_0000 ==> e.len * 4096 == capacity
        }),
{
    let e = stack_entry(capacity, base);
    let b = e.flags.bits;
    assert(writable_data(b) && b & FLAG_STACK != 0 && b & (FLAG_SHARED_OWNED | FLAG_SHARED_FOREIGN)
        == 0) by (bit_vector)
        requires
            b == FLAG_PRESENT | FLAG_DATA | FLAG_READ | FLAG_WRITE | FLAG_STACK,
    ;
    let x = (base - capacity) as int;
    vstd::arithmetic::div_mod::lemma_fundamental_div_mod(x, 4096);
    vstd::arithmetic::div_mod::lemma_mod_multiples_basic(x / 4096, 4096);
    assert(capacity / 4096 * 4096 == capacity) by {
        vstd::arithmetic::div_mod::lemma_fundamental_div_mod(capacity as int, 4096);
    }
    if capacity < 0x1000_0000_0000 {
        assert(capacity / 4096 <= u32::MAX);
    }
}

/// Shared memory, owned by the guest or by the host, is present, readable
/// and writable data for the guest, never code and never the stack, and
/// marked with exactly one owner: the guest if `owned`, the host otherwise.
/// The guest sees it at the canonical address of the host's mapping.
pub proof fn law_shared_entry(addr: u64, host_addr: u64, pages: u32, owned: bool)
    ensures
        ({
            let e = shared_entry(addr, host_addr, pages, owned);
            &&& writable_data(e.flags.bits)
            &&& e.flags.spec_is_write()
            &&& !e.flags.spec_is_code()
            &&& e.flags.bits & FLAG_STACK == 0
            &&& (e.flags.bits & FLAG_SHARED_OWNED != 0) == owned
            &&& (e.flags.bits & FLAG_SHARED_FOREIGN != 0) == !owned
            &&& e.paddr == addr
            &&& e.len == pages
            &&& e.vaddr == spec_as_virt_addr(host_addr & 0xFFFF_FFFF_FFFFu64)
        }),
{
    let b = shared_entry(addr, host_addr, pages, owned).flags.bits;
    assert(writable_data(b) && b & FLAG_STACK == 0 && (b & FLAG_SHARED_OWNED != 0) == owned && (b
        & FLAG_SHARED_FOREIGN != 0) == !owned) by (bit_vector)
        requires
            b == FLAG_PRESENT | FLAG_DATA | FLAG_READ | FLAG_WRITE | if owned {
                FLAG_SHARED_OWNED
            } else {
                FLAG_SHARED_FOREIGN
            },
    ;
}

/// The guest physical address the stack grows down from.
pub const GUEST_STACK_ADDR: u64 = 0x7FFF_FFFF_F000;

/// The initial stack pointer: just below the top of the stack, aligned.
pub open spec fn initial_stack_pointer_spec() -> u64 {
    floor_to(spec_as_virt_addr(GUEST_STACK_ADDR) - 1, STACK_ALIGN as int) as u64
}

/// The initial stack pointer: just below the top of the stack, aligned.
pub fn initial_stack_pointer() -> (r: u64)
    ensures
        r == initial_stack_pointer_spec(),
{
    let top = as_virt_addr(guest_stack_addr());
    assert(top > 0) by {
        assert(floor_to(GUEST_SYSTEM_ADDR - 1, PAGE_4KIB as int) == 0x7FFF_FFFF_F000);
        assert(0x7FFF_FFFF_F000u64 & 0x8000_0000_0000u64 == 0) by (bit_vector);
    }
    let sp = top - 1;
    sp - sp % STACK_ALIGN
}

/// A page-aligned address rounded down stays page-aligned.
pub proof fn lemma_floor_page_aligned(a: int)
    requires
        a >= 0,
    ensures
        floor_to(a, PAGE_4KIB as int) % 4096 == 0,
{
    vstd::arithmetic::div_mod::lemma_fundamental_div_mod(a, 4096);
    vstd::arithmetic::div_mod::lemma_mod_multiples_basic(a / 4096, 4096);
}

/// What `align_by_ref` gives is page-aligned.
pub proof fn lemma_align_by_ref_aligned(value: u64, reference: u64)
    ensures
        align_by_ref_spec(value, reference) % 4096 == 0,
        0 <= align_by_ref_spec(value, reference) <= value,
{
    let v = value as int;
    vstd::arithmetic::div_mod::lemma_fundamental_div_mod(v, 0x4000_0000);
    vstd::arithmetic::div_mod::lemma_fundamental_div_mod(v, 0x20_0000);
    vstd::arithmetic::div_mod::lemma_fundamental_div_mod(v, 4096);
    vstd::arithmetic::div_mod::lemma_mod_multiples_basic((v / 0x4000_0000) * 0x4_0000, 4096);
    vstd::arithmetic::div_mod::lemma_mod_multiples_basic((v / 0x20_0000) * 0x200, 4096);
    vstd::arithmetic::div_mod::lemma_mod_multiples_basic(v / 4096, 4096);
    vstd::arithmetic::mul::lemma_mul_is_associative(v / 0x4000_0000, 0x4_0000, 4096);
    vstd::arithmetic::mul::lemma_mul_is_associative(v / 0x20_0000, 0x200, 4096);
}

} // verus!
