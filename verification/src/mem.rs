//! Guest memory addresses, alignment and the memory layout table.
use vstd::prelude::*;
use crate::paging::{le_u64, store_u64};

verus! {

/// Size of a 4 KiB page.
pub const PAGE_4KIB: u64 = 0x1000;
/// Size of a 2 MiB page.
pub const PAGE_2MIB: u64 = 0x20_0000;
/// Size of a 1 GiB page.
pub const PAGE_1GIB: u64 = 0x4000_0000;

/// Number of bits of the guest address space.
pub const ADDR_SPACE_BITS: u64 = 48;

/// `addr` is a multiple of `align`.
pub open spec fn aligned(addr: int, align: int) -> bool {
    addr % align == 0
}

/// `addr` rounded down to a multiple of `align`.
pub open spec fn floor_to(addr: int, align: int) -> int {
    addr - addr % align
}

/// Round `addr` down to the start of its 4 KiB page.
pub fn align_floor(addr: u64) -> (r: u64)
    ensures
        r == floor_to(addr as int, PAGE_4KIB as int),
{
    let r = addr & !0xFFFu64;
    assert(addr & !0xFFFu64 == addr - addr % 0x1000) by (bit_vector);
    r
}

/// Round `addr` up to the start of the next 4 KiB page (or keep it when aligned).
pub fn align_ceil(addr: u64) -> (r: u64)
    requires
        addr + 0xFFF <= u64::MAX,
    ensures
        r as int == if addr % 0x1000 == 0 { addr as int } else { addr - addr % 0x1000 + 0x1000 },
{
    let r = (addr + 0xFFF) & !0xFFFu64;
    let s: u64 = addr + 0xFFF;
    assert(s == addr + 0xFFF ==> (s & !0xFFFu64) == if addr % 0x1000 == 0 {
        addr
    } else {
        (addr - addr % 0x1000 + 0x1000) as u64
    }) by (bit_vector);
    r
}


/// Sign-extend bit 47 of a guest physical address into the canonical virtual
/// address that the guest uses for it.
pub open spec fn spec_as_virt_addr(addr: u64) -> u64 {
    if addr & 0x8000_0000_0000u64 != 0 {
        addr | 0xFFFF_0000_0000_0000u64
    } else {
        addr
    }
}

/// The canonical virtual address of a guest physical address.
pub fn as_virt_addr(addr: u64) -> (r: u64)
    ensures
        r == spec_as_virt_addr(addr),
{
    if addr & 0x8000_0000_0000u64 != 0 {
        addr | 0xFFFF_0000_0000_0000u64
    } else {
        addr
    }
}

/// The region is present in the guest.
pub const FLAG_PRESENT: u32 = 1;
/// The region is readable.
pub const FLAG_READ: u32 = 1 << 1;
/// The region is writable.
pub const FLAG_WRITE: u32 = 1 << 2;
/// The region holds code.
pub const FLAG_CODE: u32 = 1 << 3;
/// The region holds data.
pub const FLAG_DATA: u32 = 1 << 4;
/// The region is a stack.
pub const FLAG_STACK: u32 = 1 << 5;
/// The region is shared memory that the guest manages.
pub const FLAG_SHARED_OWNED: u32 = 1 << 6;
/// The region is shared memory that the host manages.
pub const FLAG_SHARED_FOREIGN: u32 = 1 << 7;

/// Access flags of a region of the memory layout.
#[derive(Clone, Copy, Debug, PartialEq, Eq, Structural)]
pub struct Flags {
    pub bits: u32,
}

impl Flags {
    pub fn empty() -> (r: Flags)
        ensures
            r.bits == 0,
    {
        Flags { bits: 0 }
    }

    pub fn from_bits(bits: u32) -> (r: Flags)
        ensures
            r.bits == bits,
    {
        Flags { bits }
    }

    /// Executable code.
    pub fn code() -> (r: Flags)
        ensures
            r.bits == FLAG_CODE,
    {
        Flags { bits: FLAG_CODE }
    }

    /// Read-only data.
    pub fn data_read() -> (r: Flags)
        ensures
            r.bits == FLAG_DATA | FLAG_READ,
    {
        Flags { bits: FLAG_DATA | FLAG_READ }
    }

    /// Writable data.
    pub fn data_write() -> (r: Flags)
        ensures
            r.bits == FLAG_DATA | FLAG_READ | FLAG_WRITE,
    {
        Flags { bits: FLAG_DATA | FLAG_READ | FLAG_WRITE }
    }

    /// All flags of `self` and of `other`.
    pub fn union(self, other: Flags) -> (r: Flags)
        ensures
            r.bits == self.bits | other.bits,
    {
        Flags { bits: self.bits | other.bits }
    }

    pub open spec fn spec_is_code(self) -> bool {
        self.bits & FLAG_CODE != 0
    }

    pub open spec fn spec_is_write(self) -> bool {
        self.bits & FLAG_WRITE != 0
    }

    /// The region holds executable code.
    pub fn is_code(&self) -> (r: bool)
        ensures
            r == self.spec_is_code(),
    {
        self.bits & FLAG_CODE != 0
    }

    /// The region is writable.
    pub fn is_write(&self) -> (r: bool)
        ensures
            r == self.spec_is_write(),
    {
        self.bits & FLAG_WRITE != 0
    }
}

/// One region of the guest memory layout: where it lives in guest physical
/// and virtual memory, how many 4 KiB pages it spans, and its flags.
#[derive(Clone, Copy, Debug, PartialEq, Eq, Structural)]
pub struct LayoutTableEntry {
    pub paddr: u64,
    pub vaddr: u64,
    pub len: u32,
    pub flags: Flags,
}

impl LayoutTableEntry {
    pub fn new(paddr: u64, vaddr: u64, len: u32, flags: Flags) -> (r: LayoutTableEntry)
        ensures
            r == (LayoutTableEntry { paddr, vaddr, len, flags }),
    {
        LayoutTableEntry { paddr, vaddr, len, flags }
    }

    /// An entry with every field zero.
    pub fn empty() -> (r: LayoutTableEntry)
        ensures
            r == (LayoutTableEntry { paddr: 0, vaddr: 0, len: 0, flags: Flags { bits: 0 } }),
    {
        LayoutTableEntry { paddr: 0, vaddr: 0, len: 0, flags: Flags { bits: 0 } }
    }

    pub fn set_paddr(self, paddr: u64) -> (r: LayoutTableEntry)
        ensures
            r == (LayoutTableEntry { paddr, ..self }),
    {
        LayoutTableEntry { paddr, ..self }
    }

    pub fn set_vaddr(self, vaddr: u64) -> (r: LayoutTableEntry)
        ensures
            r == (LayoutTableEntry { vaddr, ..self }),
    {
        LayoutTableEntry { vaddr, ..self }
    }

    pub fn set_len(self, len: u32) -> (r: LayoutTableEntry)
        ensures
            r == (LayoutTableEntry { len, ..self }),
    {
        LayoutTableEntry { len, ..self }
    }

    pub fn set_flags(self, flags: Flags) -> (r: LayoutTableEntry)
        ensures
            r == (LayoutTableEntry { flags, ..self }),
    {
        LayoutTableEntry { flags, ..self }
    }

    /// Guest physical start address.
    pub fn addr(&self) -> (r: u64)
        ensures
            r == self.paddr,
    {
        self.paddr
    }

    pub open spec fn spec_size(self) -> int {
        self.len as int * 0x1000
    }

    /// Size in bytes.
    pub fn size(&self) -> (r: u64)
        ensures
            r == self.spec_size(),
    {
        self.len as u64 * 0x1000
    }

    pub fn flags(&self) -> (r: Flags)
        ensures
            r == self.flags,
    {
        self.flags
    }
}


/// The guest physical address of a canonical virtual address (its low 48 bits).
pub fn phys_of_virt(va: u64) -> (r: u64)
    ensures
        r == va & 0xFFFF_FFFF_FFFFu64,
{
    va & 0xFFFF_FFFF_FFFFu64
}

/// Rounding down to a page gives the start of the page that holds the
/// address, and is idempotent; rounding up gives the first page start at
/// or above it.
pub proof fn law_page_rounding(addr: u64)
    ensures
        floor_to(addr as int, 0x1000) % 0x1000 == 0,
        floor_to(addr as int, 0x1000) <= addr < floor_to(addr as int, 0x1000) + 0x1000,
        floor_to(floor_to(addr as int, 0x1000), 0x1000) == floor_to(addr as int, 0x1000),
        ({
            let c = if addr % 0x1000 == 0 { addr as int } else { addr - addr % 0x1000 + 0x1000 };
            c % 0x1000 == 0 && addr <= c < addr + 0x1000
        }),
{
    let a = addr as int;
    vstd::arithmetic::div_mod::lemma_fundamental_div_mod(a, 0x1000);
    vstd::arithmetic::div_mod::lemma_mod_multiples_basic(a / 0x1000, 0x1000);
    vstd::arithmetic::div_mod::lemma_mod_multiples_basic(a / 0x1000 + 1, 0x1000);
    vstd::arithmetic::mul::lemma_mul_is_distributive_add_other_way(0x1000, a / 0x1000, 1);
}

/// The canonical virtual address of a 48-bit guest physical address leads
/// back to it.
pub proof fn law_virt_phys_roundtrip(addr: u64)
    requires
        addr < 0x1_0000_0000_0000,
    ensures
        spec_as_virt_addr(addr) & 0xFFFF_FFFF_FFFFu64 == addr,
{
    assert(addr < 0x1_0000_0000_0000u64 ==> (if addr & 0x8000_0000_0000u64 != 0 {
        addr | 0xFFFF_0000_0000_0000u64
    } else {
        addr
    }) & 0xFFFF_FFFF_FFFFu64 == addr) by (bit_vector);
}

/// The bytes of one entry of the memory layout table.
pub const LAYOUT_ENTRY_SIZE: usize = 24;

/// The entries that fit into the one page of the memory layout table.
pub const LAYOUT_TABLE_ENTRIES: usize = 170;

/// The third word of an entry in the memory layout table: the page count in
/// its low half, the flags in its high half.
pub open spec fn len_and_flags(e: LayoutTableEntry) -> u64 {
    (e.len as u64) | ((e.flags.bits as u64) << 32u64)
}

/// `bytes` is the page of the memory layout table holding `entries` in
/// order: entry `i` takes the 24 bytes from `24 * i` on, as three
/// little-endian words (guest physical address, guest virtual address, page
/// count and flags); the rest of the page is zero.
pub open spec fn holds_layout(bytes: Seq<u8>, entries: Seq<LayoutTableEntry>) -> bool {
    &&& bytes.len() == 4096
    &&& forall|i: int|
        0 <= i < entries.len() ==> {
            &&& le_u64(bytes, 24 * i) == (#[trigger] entries[i]).paddr
            &&& le_u64(bytes, 24 * i + 8) == entries[i].vaddr
            &&& le_u64(bytes, 24 * i + 16) == len_and_flags(entries[i])
        }
    &&& forall|j: int| 24 * entries.len() <= j < 4096 ==> #[trigger] bytes[j] == 0
}

proof fn lemma_le_u64_same(a: Seq<u8>, b: Seq<u8>, off: int)
    requires
        forall|j: int| off <= j < off + 8 ==> #[trigger] a[j] == b[j],
    ensures
        le_u64(a, off) == le_u64(b, off),
{
    assert(a[off] == b[off]);
    assert(a[off + 1] == b[off + 1]);
    assert(a[off + 2] == b[off + 2]);
    assert(a[off + 3] == b[off + 3]);
    assert(a[off + 4] == b[off + 4]);
    assert(a[off + 5] == b[off + 5]);
    assert(a[off + 6] == b[off + 6]);
    assert(a[off + 7] == b[off + 7]);
}

/// The page of the memory layout table holding `entries` (see
/// `holds_layout`).
pub fn layout_table_bytes(entries: &[LayoutTableEntry]) -> (r: Vec<u8>)
    requires
        entries@.len() <= LAYOUT_TABLE_ENTRIES,
    ensures
        holds_layout(r@, entries@),
{
    let mut data: Vec<u8> = vec![0u8; 4096];
    let mut i: usize = 0;
    while i < entries.len()
        invariant
            0 <= i <= entries@.len() <= LAYOUT_TABLE_ENTRIES,
            data@.len() == 4096,
            forall|k: int|
                0 <= k < i ==> {
                    &&& le_u64(data@, 24 * k) == (#[trigger] entries@[k]).paddr
                    &&& le_u64(data@, 24 * k + 8) == entries@[k].vaddr
                    &&& le_u64(data@, 24 * k + 16) == len_and_flags(entries@[k])
                },
            forall|j: int| 24 * i <= j < 4096 ==> #[trigger] data@[j] == 0,
        decreases entries@.len() - i,
    {
        let e = entries[i];
        let off = i * LAYOUT_ENTRY_SIZE;
        let ghost before = data@;
        store_u64(&mut data, off, e.paddr);
        store_u64(&mut data, off + 8, e.vaddr);
        let ghost mid = data@;
        store_u64(&mut data, off + 16, (e.len as u64) | ((e.flags.bits as u64) << 32u64));
        proof {
            assert forall|k: int| 0 <= k < i implies {
                &&& le_u64(data@, 24 * k) == (#[trigger] entries@[k]).paddr
                &&& le_u64(data@, 24 * k + 8) == entries@[k].vaddr
                &&& le_u64(data@, 24 * k + 16) == len_and_flags(entries@[k])
            } by {
                lemma_le_u64_same(data@, before, 24 * k);
                lemma_le_u64_same(data@, before, 24 * k + 8);
                lemma_le_u64_same(data@, before, 24 * k + 16);
            }
            lemma_le_u64_same(data@, mid, off as int);
            lemma_le_u64_same(data@, mid, off + 8);
        }
        i = i + 1;
    }
    data
}

} // verus!
