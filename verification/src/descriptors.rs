//! Descriptor tables and processor features the guest needs to enter long
//! mode: the global descriptor table, the (empty) interrupt descriptor table,
//! and the CPUID leaves the guest sees.
use vstd::prelude::*;
use crate::mem::ADDR_SPACE_BITS;

verus! {

/// Bytes reserved for the interrupt descriptor table.
pub const IDT_SIZE: u64 = 0x1000;
/// Bytes reserved for the global descriptor table.
pub const GDT_SIZE: u64 = 0x1000;
/// Bytes of one global descriptor.
pub const GDT_ENTRY_SIZE: usize = 8;
/// Bytes of one interrupt descriptor.
pub const IDT_ENTRY_SIZE: usize = 8;
/// 4 KiB pages the interrupt descriptor table takes.
pub const IDT_PAGE_REQUIRED: usize = 1;
/// 4 KiB pages the global descriptor table takes.
pub const GDT_PAGE_REQUIRED: usize = 1;

/// Segment limit of the code and data segments.
pub const GDT_LIMIT: u64 = 0xFF_FFFF;
/// Segment base of the code and data segments.
pub const GDT_BASE: u64 = 0;
/// Access byte of the code segment: present, ring 0, executable, readable, accessed.
pub const GDT_ACCESS_CODE: u8 = 0x9B;
/// Flags of the code segment: 4 KiB granularity, long mode.
pub const GDT_FLAGS_CODE: u8 = 0b1010;
/// Access byte of the data segment: present, ring 0, writable, accessed.
pub const GDT_ACCESS_DATA: u8 = 0x93;
/// Flags of the data segment: 4 KiB granularity, 32-bit.
pub const GDT_FLAGS_DATA: u8 = 0b1100;

/// The eight bytes of a segment descriptor.
pub open spec fn spec_gdt_entry(base: u64, limit: u64, access_byte: u8, flags: u8) -> Seq<u8> {
    seq![
        (limit & 0xFF) as u8,
        ((limit >> 8u64) & 0xFF) as u8,
        (base & 0xFF) as u8,
        ((base >> 8u64) & 0xFF) as u8,
        ((base >> 16u64) & 0xFF) as u8,
        access_byte,
        (((limit >> 16u64) & 0x0F) as u8) | (((flags as int * 16) % 256) as u8),
        (base >> 24u64) as u8,
    ]
}

/// A segment descriptor with the given base, limit (bits 19:0 are used),
/// access byte and flags (bits 3:0 are used).
pub fn gdt_entry(base: u64, limit: u64, access_byte: u8, flags: u8) -> (r: [u8; 8])
    ensures
        r@ == spec_gdt_entry(base, limit, access_byte, flags),
{
    let f: u8 = flags << 4u8;
    assert(f == ((flags as int * 16) % 256) as u8) by (bit_vector)
        requires
            f == flags << 4u8,
    ;
    let b7 = base >> 24u64;
    let r = [
        (limit & 0xFF) as u8,
        ((limit >> 8u64) & 0xFF) as u8,
        (base & 0xFF) as u8,
        ((base >> 8u64) & 0xFF) as u8,
        ((base >> 16u64) & 0xFF) as u8,
        access_byte,
        ((limit >> 16u64) & 0x0F) as u8 | f,
        b7 as u8,
    ];
    assert(r@ =~= spec_gdt_entry(base, limit, access_byte, flags));
    r
}

/// The global descriptor table valid in long mode: the null descriptor, a
/// code segment and a data segment.
pub open spec fn spec_gdt() -> Seq<u8> {
    spec_gdt_entry(0, 0, 0, 0) + spec_gdt_entry(GDT_BASE, GDT_LIMIT, GDT_ACCESS_CODE, GDT_FLAGS_CODE)
        + spec_gdt_entry(GDT_BASE, GDT_LIMIT, GDT_ACCESS_DATA, GDT_FLAGS_DATA)
}

fn append_entry(v: &mut Vec<u8>, e: [u8; 8])
    ensures
        final(v)@ == old(v)@ + e@,
{
    let mut i: usize = 0;
    while i < 8
        invariant
            0 <= i <= 8,
            v@ == old(v)@ + e@.take(i as int),
        decreases 8 - i,
    {
        v.push(e[i]);
        i = i + 1;
        assert(e@.take(i as int) =~= e@.take(i - 1).push(e@[i - 1]));
    }
    assert(e@.take(8) =~= e@);
}

/// Initialize a new global descriptor table valid in long mode.
pub fn gdt() -> (r: Vec<u8>)
    ensures
        r@ == spec_gdt(),
        r@.len() == 3 * GDT_ENTRY_SIZE,
{
    let mut gdt: Vec<u8> = Vec::new();
    append_entry(&mut gdt, gdt_entry(0, 0, 0, 0));
    append_entry(&mut gdt, gdt_entry(GDT_BASE, GDT_LIMIT, GDT_ACCESS_CODE, GDT_FLAGS_CODE));
    append_entry(&mut gdt, gdt_entry(GDT_BASE, GDT_LIMIT, GDT_ACCESS_DATA, GDT_FLAGS_DATA));
    assert(gdt@ =~= spec_gdt());
    gdt
}

/// Initialize a new interrupt descriptor table. No interrupt handler is
/// registered, so it is empty.
pub fn idt() -> (r: Vec<u8>)
    ensures
        r@ == Seq::<u8>::empty(),
{
    Vec::new()
}

/// Basic processor information.
pub const CPUID_BASIC_INFO: u32 = 0x0000_0001;
/// Extended processor information.
pub const EXT_PROCESSOR_INFO_EAX: u32 = 0x8000_0001;
/// Address sizes.
pub const EXT_PROCESSOR_INFO_INDEX: u32 = 0x8000_0008;

/// One CPUID leaf as the hypervisor reports it.
#[derive(Clone, Copy, Debug, PartialEq, Eq, Structural)]
pub struct CpuIdEntry {
    pub function: u32,
    pub index: u32,
    pub flags: u32,
    pub eax: u32,
    pub ebx: u32,
    pub ecx: u32,
    pub edx: u32,
}

/// A leaf after enabling what long mode with paging needs.
pub open spec fn spec_adjust_leaf(e: CpuIdEntry) -> CpuIdEntry {
    if e.function == CPUID_BASIC_INFO {
        // PSE and PAE in EDX, NX in ECX
        CpuIdEntry { edx: e.edx | ((1u32 << 3u32) | (1u32 << 6u32)), ecx: e.ecx | (1u32 << 20u32), ..e }
    } else if e.function == EXT_PROCESSOR_INFO_EAX {
        // long mode
        CpuIdEntry { edx: e.edx | (1u32 << 29u32), ..e }
    } else if e.function == EXT_PROCESSOR_INFO_INDEX {
        // physical address bits, 48 virtual address bits, 1 GiB pages
        CpuIdEntry {
            ebx: (((e.ebx & !0xFF00u32) | ((ADDR_SPACE_BITS as u32) << 8u32)) & !0x00FFu32) | 0x30,
            ecx: e.ecx | (1u32 << 26u32),
            ..e
        }
    } else {
        e
    }
}

/// Enable in the supported CPUID leaves what the guest needs: page size and
/// physical address extension, no-execute, long mode, the guest's address
/// width and 1 GiB pages. Other leaves stay as they are.
pub fn adjust_cpuid(entries: &mut Vec<CpuIdEntry>)
    ensures
        final(entries)@.len() == old(entries)@.len(),
        forall|i: int|
            0 <= i < old(entries)@.len() ==> #[trigger] final(entries)@[i] == spec_adjust_leaf(
                old(entries)@[i],
            ),
{
    let n = entries.len();
    let mut i: usize = 0;
    while i < n
        invariant
            0 <= i <= n,
            n == old(entries)@.len(),
            entries@.len() == n,
            forall|j: int| 0 <= j < i ==> #[trigger] entries@[j] == spec_adjust_leaf(
                old(entries)@[j],
            ),
            forall|j: int| i <= j < n ==> #[trigger] entries@[j] == old(entries)@[j],
        decreases n - i,
    {
        let mut e = entries[i];
        if e.function == CPUID_BASIC_INFO {
            e.edx = e.edx | ((1u32 << 3u32) | (1u32 << 6u32));
            e.ecx = e.ecx | (1u32 << 20u32);
        } else if e.function == EXT_PROCESSOR_INFO_EAX {
            e.edx = e.edx | (1u32 << 29u32);
        } else if e.function == EXT_PROCESSOR_INFO_INDEX {
            e.ebx = (e.ebx & !0xFF00u32) | ((ADDR_SPACE_BITS as u32) << 8u32);
            e.ebx = (e.ebx & !0x00FFu32) | 0x30;
            e.ecx = e.ecx | (1u32 << 26u32);
        }
        entries.set(i, e);
        i = i + 1;
    }
}

} // verus!
