//! The host's view of a guest VM: its configuration, execution state,
//! registers, callable functions and memory, and the steps that prepare
//! and run it. The hypervisor itself is driven by the caller.
use vstd::prelude::*;
use crate::descriptors::{GDT_SIZE, IDT_SIZE, gdt, idt, spec_gdt};
use crate::elf::ExecBundle;
use crate::linker::{hypercall, upcall};
use crate::mem::{
    FLAG_DATA, FLAG_PRESENT, FLAG_READ, FLAG_WRITE, Flags, LAYOUT_TABLE_ENTRIES, LayoutTableEntry,
    as_virt_addr, holds_layout, layout_table_bytes, spec_as_virt_addr,
};
use crate::memory::perm::ReadWrite;
use crate::memory::region::{ProtoRegion, Region, RegionCollection, RegionEntry, written};
use crate::pagetable::{low, translate};
use crate::paging::{
    PagingError, TableRegion, entry_end, entry_start, in_entry, in_entry_low, layout_ok,
    mapped_ok, pages_before, phys_tables, region_ok, separated, setup, total_pages,
    TABLE_ADDR_LIMIT,
};
use crate::vm::config::Config;
use crate::vm::layout::{
    GUEST_STACK_ADDR, GUEST_SYSTEM_ADDR, align_by_ref, align_by_ref_spec, floor_by_ref,
    guest_paging_addr, guest_stack_addr,
    guest_system_addr, initial_stack_pointer, shared_entry, shared_layout, stack_entry, stack_layout,
    GUEST_PAGING_ADDR,
};
use crate::vm::registry::{Hypercalls, Upcalls};
use crate::vm::run::{State, VmError, hypercall_done, hypercall_exec, upcall_exec_setup, upcall_prepared, upcall_result};
use crate::vmi::{ExitCode, Transport};
use crate::vm::vcpu::{Gdt, Idt, Regs, SRegs, Setup, VcpuState};

verus! {

/// Page-table pages the paging setup reserves at first.
pub const INITIAL_PAGE_ALLOC: usize = 16;
/// Page-table pages the paging setup adds when it runs out.
pub const ADDITIONAL_PAGE_ALLOC: usize = 4;
/// Offset of the global descriptor table in the system region.
pub const SYS_REGION_OFFSET_GDT: u64 = 0;
/// Offset of the interrupt descriptor table in the system region.
pub const SYS_REGION_OFFSET_IDT: u64 = 0x1000;

/// The page tables can map the layout `entries` with their root at `pml4`:
/// each entry starts at a page and ends within the address space, and the
/// tables fit below the limit of table addresses.
pub open spec fn mappable(entries: Seq<LayoutTableEntry>, pml4: u64) -> bool {
    &&& layout_ok(entries)
    &&& pml4 + 0x1000 * (INITIAL_PAGE_ALLOC + ADDITIONAL_PAGE_ALLOC + 1 + 3 * total_pages(entries))
        <= TABLE_ADDR_LIMIT
}

/// Whether the page tables can map the layout `entries` with their root at
/// `pml4` (see `mappable`).
pub fn check_mappable(entries: &[LayoutTableEntry], pml4: u64) -> (r: bool)
    ensures
        r == mappable(entries@, pml4),
{
    let ghost s = entries@;
    let mut total: u64 = 0;
    let mut i: usize = 0;
    while i < entries.len()
        invariant
            0 <= i <= s.len(),
            s == entries@,
            total == pages_before(s, i as int),
            total <= 0x100_0000_0000,
            forall|k: int|
                0 <= k < i ==> #[trigger] entry_start(s[k]) % 0x1000 == 0 && entry_end(s[k])
                    <= u64::MAX,
        decreases s.len() - i,
    {
        let e = entries[i];
        let start = as_virt_addr(e.paddr);
        let size = e.len as u64 * 0x1000;
        if start % 0x1000 != 0 || start > u64::MAX - size {
            assert(!(entry_start(s[i as int]) % 0x1000 == 0 && entry_end(s[i as int]) <= u64::MAX));
            return false;
        }
        total = total + e.len as u64;
        i = i + 1;
        if total > 0x100_0000_0000 {
            proof {
                crate::paging::lemma_pages_before_mono(s, i as int, s.len() as int);
            }
            return false;
        }
    }
    let tables = (INITIAL_PAGE_ALLOC as u64 + ADDITIONAL_PAGE_ALLOC as u64 + 1 + 3 * total) * 0x1000;
    tables <= TABLE_ADDR_LIMIT && pml4 <= TABLE_ADDR_LIMIT - tables
}

/// The layout entry of the system region at `addr`: the two pages of the
/// descriptor tables, writable data.
pub open spec fn sys_entry(addr: u64) -> LayoutTableEntry {
    LayoutTableEntry {
        paddr: addr,
        vaddr: spec_as_virt_addr(addr),
        len: 2,
        flags: Flags { bits: FLAG_PRESENT | FLAG_DATA | FLAG_READ | FLAG_WRITE },
    }
}

/// The layout entry of the memory layout table at `addr`: one page,
/// read-only data.
pub open spec fn layout_table_entry(addr: u64) -> LayoutTableEntry {
    LayoutTableEntry {
        paddr: addr,
        vaddr: spec_as_virt_addr(addr),
        len: 1,
        flags: Flags { bits: FLAG_PRESENT | FLAG_DATA | FLAG_READ },
    }
}

/// The bytes of the system region: the global descriptor table at its
/// start and the (empty) interrupt descriptor table after the first page,
/// in two zero-filled pages.
pub open spec fn sys_contents() -> Seq<u8> {
    written(Seq::new(0x2000, |i: int| 0u8), 0, spec_gdt())
}

/// Entries `from..` of `regions` are read-write regions holding exactly
/// the page-table regions `tables`.
pub open spec fn holds_tables(
    regions: Seq<(u64, u64, RegionEntry)>,
    from: int,
    tables: Seq<TableRegion>,
) -> bool {
    &&& regions.len() == from + tables.len()
    &&& forall|k: int|
        0 <= k < tables.len() ==> {
            &&& (#[trigger] regions[from + k]).2 is ReadWrite
            &&& regions[from + k].2.spec_addr() == tables[k].addr
            &&& regions[from + k].2.contents() == tables[k].data@
        }
}

/// The page tables `tables` with their root at `pml4` map every address of
/// every layout entry to itself with the entry's permissions, and nothing
/// else.
pub open spec fn tables_map_layout(
    tables: Seq<TableRegion>,
    pml4: u64,
    entries: Seq<LayoutTableEntry>,
) -> bool {
    &&& forall|i: int, va: u64|
        0 <= i < entries.len() && #[trigger] in_entry(entries[i], va) ==> mapped_ok(
            phys_tables(tables),
            pml4,
            va,
            entries[i].flags,
        )
    &&& forall|va: u64| #[trigger]
        translate(phys_tables(tables), pml4, va) is Some ==> exists|i: int|
            0 <= i < entries.len() && #[trigger] in_entry_low(entries[i], low(va))
}

/// The host's view of a guest VM. `C` performs hypercalls.
pub struct Vm<C> {
    pub cfg: Config,
    pub state: State,
    pub vcpu: VcpuState,
    pub hypercalls: Hypercalls<C>,
    pub upcalls: Upcalls,
    pub mem_mappings: RegionCollection,
    pub paging_size: u64,
}

impl<C> Vm<C> {
    /// A VM with configuration `cfg` whose CPU has the registers `regs` and
    /// `sregs`; nothing is loaded or linked yet.
    pub fn new(cfg: Config, regs: Regs, sregs: SRegs) -> (r: Vm<C>)
        ensures
            r.cfg == cfg,
            r.state == State::PreSetup,
            r.vcpu.spec_regs().value() == regs,
            r.vcpu.spec_sregs().value() == sregs,
            !r.vcpu.stale(),
            r.hypercalls@.len() == 0,
            r.upcalls@.len() == 0,
            r.mem_mappings@.len() == 0,
            r.mem_mappings.wf(),
            r.paging_size == 0,
    {
        Vm {
            cfg,
            state: State::PreSetup,
            vcpu: VcpuState::new(regs, sregs),
            hypercalls: Hypercalls::default(),
            upcalls: Upcalls::default(),
            mem_mappings: RegionCollection::new(),
            paging_size: 0,
        }
    }

    /// Take the linked functions: hypercalls sorted by signature, upcalls as
    /// given.
    pub fn link(&mut self, hypercalls: Vec<hypercall::Function<C>>, upcalls: Vec<upcall::Function>)
        ensures
            final(self).hypercalls@.to_multiset() == hypercalls@.to_multiset(),
            crate::vm::registry::sorted_sigs(final(self).hypercalls@),
            final(self).upcalls@ == upcalls@,
            final(self).cfg == old(self).cfg,
            final(self).state == old(self).state,
            final(self).vcpu == old(self).vcpu,
            final(self).mem_mappings == old(self).mem_mappings,
            final(self).paging_size == old(self).paging_size,
    {
        self.hypercalls = Hypercalls::from(hypercalls);
        self.upcalls = Upcalls::from(upcalls);
    }

    /// A zero-filled stack of `capacity` bytes that grows down from `base`,
    /// and its layout entry.
    pub fn alloc_stack(capacity: usize, base: u64) -> (r: (Region<ReadWrite>, LayoutTableEntry))
        requires
            capacity > 0,
            capacity % 4096 == 0,
            capacity <= base,
        ensures
            r.1 == stack_entry(capacity, base),
            r.0.spec_addr() == r.1.paddr,
            r.0.contents() == Seq::new(capacity as nat, |i: int| 0u8),
    {
        let entry = stack_layout(capacity, base);
        let proto = ProtoRegion::<ReadWrite>::new(capacity);
        proof {
            crate::vm::layout::lemma_floor_page_aligned(base - capacity);
        }
        let region = proto.set_guest_addr(entry.paddr);
        (region, entry)
    }

    /// Zero-filled shared memory of `capacity` bytes below `upper`, at an
    /// address aligned like the host memory at `host_addr`, and its layout
    /// entry of `pages` pages; owned by the guest if `owned`. `None` for no
    /// memory.
    pub fn alloc_shared(capacity: usize, upper: u64, host_addr: u64, pages: u32, owned: bool) -> (r:
        Option<(Region<ReadWrite>, LayoutTableEntry)>)
        requires
            capacity % 4096 == 0,
            capacity <= upper,
            capacity > 0 ==> align_by_ref_spec((upper - capacity) as u64, host_addr) > 0,
        ensures
            capacity == 0 ==> r is None,
            capacity > 0 ==> (r matches Some(p) && {
                let addr = align_by_ref_spec((upper - capacity) as u64, host_addr) as u64;
                &&& p.1 == shared_entry(addr, host_addr, pages, owned)
                &&& p.0.spec_addr() == addr
                &&& p.0.contents() == Seq::new(capacity as nat, |i: int| 0u8)
            }),
    {
        if capacity == 0 {
            return None;
        }
        let proto = ProtoRegion::<ReadWrite>::new(capacity);
        let addr = align_by_ref(upper - capacity as u64, host_addr);
        proof {
            crate::vm::layout::lemma_align_by_ref_aligned((upper - capacity) as u64, host_addr);
        }
        let region = proto.set_guest_addr(addr);
        let layout = shared_layout(addr, host_addr, pages, owned);
        Some((region, layout))
    }
}


/// The bytes the page-table regions `tables` hold together.
pub open spec fn table_bytes(tables: Seq<TableRegion>) -> int
    decreases tables.len(),
{
    if tables.len() == 0 {
        0
    } else {
        table_bytes(tables.drop_last()) + tables.last().data@.len()
    }
}

proof fn lemma_table_bytes(tables: Seq<TableRegion>, k: int)
    requires
        0 < k <= tables.len(),
        forall|j: int| 0 <= j < tables.len() ==> #[trigger] region_ok(tables[j]),
        forall|j: int|
            0 < j < tables.len() ==> #[trigger] tables[j].addr == tables[j - 1].addr
                + tables[j - 1].data@.len(),
    ensures
        table_bytes(tables.take(k)) == tables[k - 1].addr + tables[k - 1].data@.len()
            - tables[0].addr,
    decreases k,
{
    assert(tables.take(k).drop_last() =~= tables.take(k - 1));
    assert(tables.take(k).last() == tables[k - 1]);
    assert(table_bytes(tables.take(k)) == table_bytes(tables.take(k - 1)) + tables[k - 1].data@.len());
    if k > 1 {
        lemma_table_bytes(tables, k - 1);
        assert(tables[k - 1].addr == tables[k - 2].addr + tables[k - 2].data@.len());
    } else {
        assert(table_bytes(tables.take(0)) == 0);
    }
}

impl<C> Vm<C> {
    /// Set up the system structures the guest needs to enter long mode: the
    /// system region with the descriptor tables, the page of the memory
    /// layout table at `layout_table_addr`, which holds the layout
    /// `exec.layout` after the entries of the system region and the layout
    /// table are added to it, and page tables that map every region of that
    /// layout. Returns the
    /// addresses of the global descriptor table, the interrupt descriptor
    /// table and the page tables.
    ///
    /// A layout the page tables cannot map fails with `LayoutUnmappable`;
    /// overlapping regions may fail with `Paging(Overlapping)`.
    pub fn setup_long_mode_env(&mut self, exec: &mut ExecBundle, layout_table_addr: u64) -> (r:
        Result<(u64, u64, u64), VmError>)
        requires
            old(self).mem_mappings.wf(),
            layout_table_addr % 4096 == 0,
            layout_table_addr + 4096 <= u64::MAX,
            old(exec).layout@.len() + 2 <= LAYOUT_TABLE_ENTRIES,
        ensures
            ({
                let entries = old(exec).layout@.push(sys_entry(GUEST_SYSTEM_ADDR)).push(
                    layout_table_entry(layout_table_addr),
                );
                let base = old(self).mem_mappings@.len() as int;
                &&& final(exec).layout@ == entries
                &&& final(exec).entry == old(exec).entry
                &&& final(exec).mem_regions == old(exec).mem_regions
                &&& final(self).cfg == old(self).cfg
                &&& final(self).state == old(self).state
                &&& final(self).vcpu == old(self).vcpu
                &&& final(self).mem_mappings.wf()
                &&& final(self).mem_mappings@.len() > base
                &&& final(self).mem_mappings@.take(base) == old(self).mem_mappings@
                &&& final(self).mem_mappings@[base].2 is ReadWrite
                &&& final(self).mem_mappings@[base].2.spec_addr() == GUEST_SYSTEM_ADDR
                &&& final(self).mem_mappings@[base].2.contents() == sys_contents()
                &&& !mappable(entries, GUEST_PAGING_ADDR) ==> (r matches Err(
                    VmError::LayoutUnmappable,
                ) && final(self).mem_mappings@.len() == base + 1)
                &&& r matches Err(VmError::Paging(e)) ==> e is Overlapping && !separated(entries)
                &&& r matches Err(e) ==> (e is LayoutUnmappable || e is Paging)
                &&& mappable(entries, GUEST_PAGING_ADDR) && separated(entries) ==> r is Ok
                &&& r matches Ok(addrs) ==> {
                    &&& addrs == (GUEST_SYSTEM_ADDR, 0x8000_0000_1000u64, GUEST_PAGING_ADDR)
                    &&& final(self).mem_mappings@[base + 1].2 is ReadWrite
                    &&& final(self).mem_mappings@[base + 1].2.spec_addr() == layout_table_addr
                    &&& holds_layout(final(self).mem_mappings@[base + 1].2.contents(), entries)
                    &&& exists|tables: Seq<TableRegion>|
                        {
                            &&& holds_tables(final(self).mem_mappings@, base + 2, tables)
                            &&& final(self).paging_size == table_bytes(tables)
                            &&& separated(entries) ==> tables_map_layout(
                                tables,
                                GUEST_PAGING_ADDR,
                                entries,
                            )
                        }
                }
            }),
    {
        let sys_addr = guest_system_addr();
        // the system region with the descriptor tables
        let mut sys = ProtoRegion::<ReadWrite>::new(0x2000);
        let gdt_bytes = gdt();
        match sys.write_offset(SYS_REGION_OFFSET_GDT as usize, gdt_bytes.as_slice()) {
            Ok(_) => {},
            Err(e) => {
                return Err(VmError::Region(e));
            },
        }
        let idt_bytes = idt();
        match sys.write_offset(SYS_REGION_OFFSET_IDT as usize, idt_bytes.as_slice()) {
            Ok(_) => {},
            Err(e) => {
                return Err(VmError::Region(e));
            },
        }
        proof {
            assert(written(sys.contents(), 0x1000, idt_bytes@) =~= sys.contents());
        }
        let sys_region = sys.set_guest_addr(sys_addr);
        self.mem_mappings.push(sys_region.into_entry());
        let flags_sys = Flags::from_bits(FLAG_PRESENT | FLAG_DATA | FLAG_READ | FLAG_WRITE);
        exec.layout.push(
            LayoutTableEntry::empty().set_paddr(sys_addr).set_vaddr(as_virt_addr(sys_addr)).set_len(
                2,
            ).set_flags(flags_sys),
        );
        // the page of the memory layout table, which holds the whole layout
        let flags_lt = Flags::from_bits(FLAG_PRESENT | FLAG_DATA | FLAG_READ);
        exec.layout.push(
            LayoutTableEntry::empty().set_paddr(layout_table_addr).set_vaddr(
                as_virt_addr(layout_table_addr),
            ).set_len(1).set_flags(flags_lt),
        );
        let table = layout_table_bytes(exec.layout.as_slice());
        let layout_region = ProtoRegion::<ReadWrite>::with_contents(table).set_guest_addr(
            layout_table_addr,
        );
        // the page tables
        let paging_addr = guest_paging_addr();
        if !check_mappable(exec.layout.as_slice(), paging_addr) {
            return Err(VmError::LayoutUnmappable);
        }
        let regions = match setup(
            exec.layout.as_slice(),
            paging_addr,
            INITIAL_PAGE_ALLOC,
            ADDITIONAL_PAGE_ALLOC,
        ) {
            Ok(regions) => regions,
            Err(e) => {
                return Err(VmError::Paging(e));
            },
        };
        self.mem_mappings.push(layout_region.into_entry());
        let ghost tables = regions@;
        let ghost base2 = self.mem_mappings@.len() as int;
        let ghost prefix = self.mem_mappings@;
        let mut regions = regions;
        let ntables = regions.len();
        let mut paging_size: u64 = 0;
        let mut k: usize = 0;
        while regions.len() > 0
            invariant
                0 <= k <= tables.len(),
                tables.len() == ntables,
                regions@ == tables.skip(k as int),
                forall|j: int| 0 <= j < tables.len() ==> #[trigger] region_ok(tables[j]),
                forall|j: int|
                    0 < j < tables.len() ==> #[trigger] tables[j].addr == tables[j - 1].addr
                        + tables[j - 1].data@.len(),
                tables.len() > 0,
                paging_size == table_bytes(tables.take(k as int)),
                self.mem_mappings.wf(),
                self.mem_mappings@.len() == base2 + k,
                holds_tables(self.mem_mappings@, base2, tables.take(k as int)),
                self.mem_mappings@.take(base2) == prefix,
                prefix.len() == base2,
                self.cfg == old(self).cfg,
                self.state == old(self).state,
                self.vcpu == old(self).vcpu,
                exec.layout@ == old(exec).layout@.push(sys_entry(GUEST_SYSTEM_ADDR)).push(
                    layout_table_entry(layout_table_addr),
                ),
                exec.entry == old(exec).entry,
                exec.mem_regions == old(exec).mem_regions,
                separated(exec.layout@) ==> tables_map_layout(tables, GUEST_PAGING_ADDR, exec.layout@),
            decreases regions@.len(),
        {
            let r = regions.remove(0);
            assert(r == tables[k as int]);
            assert(region_ok(r));
            let len = r.data.len();
            let proto = ProtoRegion::<ReadWrite>::with_contents(r.data);
            let region = proto.set_guest_addr(r.addr);
            let ghost before = self.mem_mappings@;
            self.mem_mappings.push(region.into_entry());
            proof {
                lemma_table_bytes(tables, k + 1);
                assert(tables.take(k + 1).drop_last() =~= tables.take(k as int));
                assert(regions@ =~= tables.skip(k + 1));
                assert(self.mem_mappings@.take(base2) =~= before.take(base2));
            }
            paging_size = paging_size + len as u64;
            k = k + 1;
            proof {
                assert forall|j: int| 0 <= j < k implies {
                    &&& (#[trigger] self.mem_mappings@[base2 + j]).2 is ReadWrite
                    &&& self.mem_mappings@[base2 + j].2.spec_addr() == tables.take(k as int)[j].addr
                    &&& self.mem_mappings@[base2 + j].2.contents() == tables.take(
                        k as int,
                    )[j].data@
                } by {
                    if j < k - 1 {
                        assert(self.mem_mappings@[base2 + j] == before[base2 + j]);
                    }
                }
            }
        }
        assert(tables.take(k as int) =~= tables);
        assert(self.mem_mappings@[base2 - 2] == prefix[base2 - 2]);
        assert(self.mem_mappings@[base2 - 1] == prefix[base2 - 1]);
        self.paging_size = paging_size;
        let gdt_addr = sys_addr + SYS_REGION_OFFSET_GDT;
        let idt_addr = sys_addr + SYS_REGION_OFFSET_IDT;
        Ok((gdt_addr, idt_addr, paging_addr))
    }
}

/// The ways loading can fail on the final layout `entries`: the page tables
/// cannot map it, or two of its regions overlap.
pub open spec fn load_failure(e: VmError, entries: Seq<LayoutTableEntry>) -> bool {
    match e {
        VmError::LayoutUnmappable => true,
        VmError::Paging(p) => p is Overlapping && !separated(entries),
        _ => false,
    }
}

/// The configured sizes are whole pages and leave room below the system
/// region for the stack and, below it, the shared memory owned by the guest
/// and then that owned by the host: each shared region fits below the
/// region before it, at an address that is not 0 once rounded down like its
/// host memory (at `guest_host_addr` and `host_host_addr`).
pub open spec fn sizes_fit(cfg: Config, guest_host_addr: u64, host_host_addr: u64) -> bool {
    let sp = stack_entry(cfg.stack_size, GUEST_STACK_ADDR).paddr;
    let g = align_by_ref_spec((sp - cfg.shared_guest) as u64, guest_host_addr);
    &&& cfg.wf()
    &&& cfg.stack_size <= GUEST_STACK_ADDR
    &&& cfg.shared_guest <= sp
    &&& g > 0
    &&& cfg.shared_host <= g
    &&& align_by_ref_spec((g - cfg.shared_host) as u64, host_host_addr) > 0
}

/// Whether the sizes of `cfg` fit (see `sizes_fit`).
pub fn check_sizes(cfg: &Config, guest_host_addr: u64, host_host_addr: u64) -> (r: bool)
    ensures
        r == sizes_fit(*cfg, guest_host_addr, host_host_addr),
{
    let stack = cfg.stack_size as u64;
    let guest = cfg.shared_guest as u64;
    let host = cfg.shared_host as u64;
    if stack == 0 || stack % 4096 != 0 || guest == 0 || guest % 4096 != 0 || host == 0 || host
        % 4096 != 0 {
        return false;
    }
    if stack > GUEST_STACK_ADDR {
        return false;
    }
    let sp = crate::mem::align_floor(GUEST_STACK_ADDR - stack);
    if guest > sp {
        return false;
    }
    let g = floor_by_ref(sp - guest, guest_host_addr);
    if g == 0 || host > g {
        return false;
    }
    floor_by_ref(g - host, host_host_addr) > 0
}

/// `m[i]` is a read-write region at `addr` holding `contents`.
pub open spec fn rw_region_at(m: Seq<(u64, u64, RegionEntry)>, i: int, addr: u64, contents: Seq<u8>) -> bool {
    &&& m[i].2 is ReadWrite
    &&& m[i].2.spec_addr() == addr
    &&& m[i].2.contents() == contents
}

/// `n` zero bytes.
pub open spec fn zeros(n: int) -> Seq<u8> {
    Seq::new(n as nat, |i: int| 0u8)
}

/// From index `n` on, `m` holds the memory of a loaded guest with
/// configuration `cfg` and final layout `entries` (see `load_exec`): the
/// zero-filled stack, the zero-filled shared memory owned by the guest and
/// that owned by the host, the system region, the memory layout table at
/// `table_addr`, the page tables (`paging_size` bytes, mapping the layout
/// where it has no overlaps), and last the executable's own regions
/// `exec_regions`.
pub open spec fn holds_loaded(
    m: Seq<(u64, u64, RegionEntry)>,
    n: int,
    cfg: Config,
    guest_host_addr: u64,
    host_host_addr: u64,
    table_addr: u64,
    entries: Seq<LayoutTableEntry>,
    paging_size: u64,
    exec_regions: Seq<(u64, u64, RegionEntry)>,
) -> bool {
    let stack = stack_entry(cfg.stack_size, GUEST_STACK_ADDR);
    let guest_shared = align_by_ref_spec((stack.paddr - cfg.shared_guest) as u64, guest_host_addr) as u64;
    let host_shared = align_by_ref_spec((guest_shared - cfg.shared_host) as u64, host_host_addr) as u64;
    &&& rw_region_at(m, n, stack.paddr, zeros(cfg.stack_size as int))
    &&& rw_region_at(m, n + 1, guest_shared, zeros(cfg.shared_guest as int))
    &&& rw_region_at(m, n + 2, host_shared, zeros(cfg.shared_host as int))
    &&& rw_region_at(m, n + 3, GUEST_SYSTEM_ADDR, sys_contents())
    &&& m[n + 4].2 is ReadWrite
    &&& m[n + 4].2.spec_addr() == table_addr
    &&& holds_layout(m[n + 4].2.contents(), entries)
    &&& exists|tables: Seq<TableRegion>|
        {
            &&& m.len() == n + 5 + tables.len() + exec_regions.len()
            &&& holds_tables(m.take(n + 5 + tables.len()), n + 5, tables)
            &&& paging_size == table_bytes(tables)
            &&& separated(entries) ==> tables_map_layout(tables, GUEST_PAGING_ADDR, entries)
            &&& m.skip(n + 5 + tables.len()) == exec_regions
        }
}

/// The system registers of a CPU set up for long mode from `sregs`: the
/// descriptor tables in the system region (three GDT entries: null, code,
/// data; an empty IDT) and the page tables at `GUEST_PAGING_ADDR`.
pub open spec fn long_mode_sregs(sregs: SRegs) -> SRegs {
    crate::vm::vcpu::with_paging(
        crate::vm::vcpu::with_idt(
            crate::vm::vcpu::with_gdt(sregs, Gdt { addr: GUEST_SYSTEM_ADDR, entries: 3, code: 1, data: 2 }),
            Idt { addr: (GUEST_SYSTEM_ADDR + 0x1000) as u64, entries: 0 },
        ),
        GUEST_PAGING_ADDR,
    )
}

/// The registers of a CPU that starts at `entry` with the initial stack,
/// from `regs`; in debug mode with the trap flag set.
pub open spec fn start_regs(regs: Regs, entry: u64, debug: bool) -> Regs {
    let e = crate::vm::vcpu::with_execution(
        regs,
        crate::vm::layout::initial_stack_pointer_spec(),
        entry,
    );
    if debug {
        Regs { rflags: e.rflags | crate::vm::vcpu::RFLAGS_TF, ..e }
    } else {
        e
    }
}

impl<C> Vm<C> {
    /// Point the CPU at the descriptor tables (three GDT entries: null, code,
    /// data; an empty IDT), the page tables, the initial stack pointer and
    /// the entry point `entry`.
    pub fn setup_cpu(&mut self, entry: u64, gdt: u64, idt: u64, paging: u64)
        ensures
            final(self).vcpu.spec_sregs().value() == crate::vm::vcpu::with_paging(
                crate::vm::vcpu::with_idt(
                    crate::vm::vcpu::with_gdt(
                        old(self).vcpu.spec_sregs().value(),
                        Gdt { addr: gdt, entries: 3, code: 1, data: 2 },
                    ),
                    Idt { addr: idt, entries: 0 },
                ),
                paging,
            ),
            final(self).vcpu.spec_regs().value() == crate::vm::vcpu::with_execution(
                old(self).vcpu.spec_regs().value(),
                crate::vm::layout::initial_stack_pointer_spec(),
                entry,
            ),
            final(self).vcpu.spec_regs().is_dirty(),
            final(self).vcpu.spec_sregs().is_dirty(),
            final(self).vcpu.stale() == old(self).vcpu.stale(),
            final(self).cfg == old(self).cfg,
            final(self).state == old(self).state,
            final(self).mem_mappings == old(self).mem_mappings,
            final(self).paging_size == old(self).paging_size,
    {
        let setup = Setup {
            gdt: Gdt { addr: gdt, entries: 3, code: 1, data: 2 },
            idt: Idt { addr: idt, entries: 0 },
            paging,
            stack: initial_stack_pointer(),
            entry,
        };
        self.vcpu.setup(&setup);
    }

    /// The zero-filled stack below the system region and the two shared
    /// regions below it (see `load_exec`), with their layout entries.
    fn alloc_low_regions(&mut self, exec: &mut ExecBundle, shared_guest_host_addr: u64, shared_host_host_addr: u64)
        requires
            sizes_fit(old(self).cfg, shared_guest_host_addr, shared_host_host_addr),
            old(self).mem_mappings.wf(),
        ensures
            ({
                let stack = stack_entry(old(self).cfg.stack_size, GUEST_STACK_ADDR);
                let pages = (old(self).cfg.shared_guest / 4096) as u32;
                let host_pages = (old(self).cfg.shared_host / 4096) as u32;
                let guest_shared = align_by_ref_spec(
                    (stack.paddr - old(self).cfg.shared_guest) as u64,
                    shared_guest_host_addr,
                ) as u64;
                let host_shared = align_by_ref_spec(
                    (guest_shared - old(self).cfg.shared_host) as u64,
                    shared_host_host_addr,
                ) as u64;
                let m = final(self).mem_mappings@;
                let n = old(self).mem_mappings@.len() as int;
                &&& final(exec).layout@ == old(exec).layout@.push(stack).push(
                    shared_entry(guest_shared, shared_guest_host_addr, pages, true),
                ).push(shared_entry(host_shared, shared_host_host_addr, host_pages, false))
                &&& final(exec).entry == old(exec).entry
                &&& final(exec).mem_regions == old(exec).mem_regions
                &&& final(self).cfg == old(self).cfg
                &&& final(self).state == old(self).state
                &&& final(self).vcpu == old(self).vcpu
                &&& final(self).mem_mappings.wf()
                &&& m.len() == n + 3
                &&& m.take(n) == old(self).mem_mappings@
                &&& rw_region_at(m, n, stack.paddr, zeros(old(self).cfg.stack_size as int))
                &&& rw_region_at(m, n + 1, guest_shared, zeros(old(self).cfg.shared_guest as int))
                &&& rw_region_at(m, n + 2, host_shared, zeros(old(self).cfg.shared_host as int))
            }),
    {
        // the stack
        let (stack, stack_entry) = Self::alloc_stack(self.cfg.stack_size, guest_stack_addr());
        let stack_addr = stack.addr();
        self.mem_mappings.push(stack.into_entry());
        exec.layout.push(stack_entry);
        proof {
            crate::vm::layout::lemma_align_by_ref_aligned(
                (stack_addr - self.cfg.shared_guest) as u64,
                shared_guest_host_addr,
            );
        }
        // shared memory owned by the guest
        let mut shared_host_upper = stack_addr;
        let pages = (self.cfg.shared_guest as u64 / 4096) as u32;
        match Self::alloc_shared(self.cfg.shared_guest, stack_addr, shared_guest_host_addr, pages, true) {
            Some((region, layout)) => {
                shared_host_upper = region.addr();
                self.mem_mappings.push(region.into_entry());
                exec.layout.push(layout);
            },
            None => {},
        }
        proof {
            crate::vm::layout::lemma_align_by_ref_aligned(
                (shared_host_upper - self.cfg.shared_host) as u64,
                shared_host_host_addr,
            );
        }
        // shared memory owned by the host
        let host_pages = (self.cfg.shared_host as u64 / 4096) as u32;
        match Self::alloc_shared(self.cfg.shared_host, shared_host_upper, shared_host_host_addr, host_pages, false) {
            Some((region, layout)) => {
                self.mem_mappings.push(region.into_entry());
                exec.layout.push(layout);
            },
            None => {},
        }
        proof {
            let m = self.mem_mappings@;
            let n = old(self).mem_mappings@.len() as int;
            assert(m.take(n) =~= old(self).mem_mappings@);
        }
    }

    /// Load the guest executable `exec`: a zero-filled stack below
    /// the system region, shared memory owned by the guest below the stack
    /// and shared memory owned by the host below that (each at an address
    /// aligned like the host memory at `shared_guest_host_addr` and
    /// `shared_host_host_addr`), the system structures (see
    /// `setup_long_mode_env`), the executable's own regions, and the CPU set
    /// up to start at the executable's entry point. In debug mode the CPU
    /// stops after each instruction.
    pub fn load_exec(
        &mut self,
        exec: &mut ExecBundle,
        shared_guest_host_addr: u64,
        shared_host_host_addr: u64,
        layout_table_addr: u64,
    ) -> (r: Result<(), VmError>)
        requires
            sizes_fit(old(self).cfg, shared_guest_host_addr, shared_host_host_addr),
            old(self).mem_mappings.wf(),
            old(exec).mem_regions.wf(),
            layout_table_addr % 4096 == 0,
            layout_table_addr + 4096 <= u64::MAX,
            old(exec).layout@.len() + 5 <= LAYOUT_TABLE_ENTRIES,
        ensures
            ({
                let base = old(exec).layout@.len() as int;
                let stack = stack_entry(old(self).cfg.stack_size, crate::vm::layout::GUEST_STACK_ADDR);
                let pages = (old(self).cfg.shared_guest / 4096) as u32;
                let host_pages = (old(self).cfg.shared_host / 4096) as u32;
                let guest_shared = align_by_ref_spec(
                    (stack.paddr - old(self).cfg.shared_guest) as u64,
                    shared_guest_host_addr,
                ) as u64;
                let host_shared = align_by_ref_spec(
                    (guest_shared - old(self).cfg.shared_host) as u64,
                    shared_host_host_addr,
                ) as u64;
                let entries = final(exec).layout@;
                &&& final(self).cfg == old(self).cfg
                &&& final(self).state == old(self).state
                &&& final(self).mem_mappings.wf()
                &&& entries.len() == base + 5
                &&& entries.take(base) == old(exec).layout@
                &&& entries[base] == stack
                &&& entries[base + 1] == shared_entry(guest_shared, shared_guest_host_addr, pages, true)
                &&& entries[base + 2] == shared_entry(host_shared, shared_host_host_addr, host_pages, false)
                &&& entries[base + 3] == sys_entry(GUEST_SYSTEM_ADDR)
                &&& entries[base + 4] == layout_table_entry(layout_table_addr)
                &&& mappable(entries, GUEST_PAGING_ADDR) && separated(entries) ==> r is Ok
                &&& !mappable(entries, GUEST_PAGING_ADDR) ==> (r matches Err(VmError::LayoutUnmappable))
                &&& (r matches Err(e) ==> load_failure(e, entries))
                &&& r is Ok ==> {
                    let m = final(self).mem_mappings@;
                    let n = old(self).mem_mappings@.len() as int;
                    &&& final(self).vcpu.spec_regs().value() == start_regs(
                        old(self).vcpu.spec_regs().value(),
                        spec_as_virt_addr(old(exec).entry),
                        old(self).cfg.debug,
                    )
                    &&& final(self).vcpu.spec_sregs().value() == long_mode_sregs(
                        old(self).vcpu.spec_sregs().value(),
                    )
                    &&& final(self).vcpu.spec_regs().is_dirty()
                    &&& final(self).vcpu.spec_sregs().is_dirty()
                    &&& final(exec).mem_regions@.len() == 0
                    &&& m.take(n) == old(self).mem_mappings@
                    &&& holds_loaded(
                        m,
                        n,
                        old(self).cfg,
                        shared_guest_host_addr,
                        shared_host_host_addr,
                        layout_table_addr,
                        entries,
                        final(self).paging_size,
                        old(exec).mem_regions@,
                    )
                }
            }),
    {
        let ghost base = exec.layout@.len() as int;
        self.alloc_low_regions(exec, shared_guest_host_addr, shared_host_host_addr);
        let ghost layout_before = exec.layout@;
        let ghost before_env = self.mem_mappings@;
        let (gdt, idt, paging) = match self.setup_long_mode_env(exec, layout_table_addr) {
            Ok(addrs) => addrs,
            Err(e) => {
                assert(exec.layout@.take(base) =~= layout_before.take(base));
                return Err(e);
            },
        };
        assert(exec.layout@.take(base) =~= layout_before.take(base));
        let ghost after_env = self.mem_mappings@;
        let ghost exec_regions = exec.mem_regions@;
        let ghost n = before_env.len() - 3;
        assert(exists|tables: Seq<TableRegion>|
            {
                &&& holds_tables(after_env, n + 5, tables)
                &&& self.paging_size == table_bytes(tables)
                &&& separated(exec.layout@) ==> tables_map_layout(
                    tables,
                    GUEST_PAGING_ADDR,
                    exec.layout@,
                )
            });
        let ghost tables = choose|tables: Seq<TableRegion>|
            {
                &&& holds_tables(after_env, n + 5, tables)
                &&& self.paging_size == table_bytes(tables)
                &&& separated(exec.layout@) ==> tables_map_layout(
                    tables,
                    GUEST_PAGING_ADDR,
                    exec.layout@,
                )
            };
        self.mem_mappings.append(&mut exec.mem_regions);
        proof {
            let m = self.mem_mappings@;
            assert(m.take(n + 5 + tables.len()) =~= after_env);
            assert(m.skip(n + 5 + tables.len()) =~= exec_regions);
            assert(m.take(n) =~= after_env.take(n));
            assert(after_env.take(n) =~= before_env.take(n));
        }
        let entry = as_virt_addr(exec.entry);
        self.setup_cpu(entry, gdt, idt, paging);
        if self.cfg.debug {
            self.vcpu.enable_single_step();
        }
        proof {
            let m = self.mem_mappings@;
            assert(m.len() == n + 5 + tables.len() + exec_regions.len());
            assert(holds_tables(m.take(n + 5 + tables.len()), n + 5, tables));
            assert(m.skip(n + 5 + tables.len()) == exec_regions);
        }
        Ok(())
    }

    /// Start a run: the guest is executing; returns whether a return from an
    /// upcall is expected.
    pub fn start_run(&mut self) -> (upcall_pending: bool)
        ensures
            final(self).state == State::Executing,
            upcall_pending == (old(self).state == State::UpcallExec),
            final(self).vcpu == old(self).vcpu,
            final(self).mem_mappings == old(self).mem_mappings,
            final(self).cfg == old(self).cfg,
    {
        let (state, pending) = crate::vm::run::start_run(self.state);
        self.state = state;
        pending
    }

    /// What follows the exit `exit` of the guest (see `run::on_exit`); the
    /// state changes as it says.
    pub fn handle_exit(&mut self, upcall_pending: bool, exit: crate::vm::run::VmExit, hypercall_port: u16) -> (r:
        crate::vm::run::Action)
        ensures
            (final(self).state, r) == crate::vm::run::on_exit_spec(
                old(self).state,
                upcall_pending,
                exit,
                hypercall_port,
            ),
            final(self).vcpu == old(self).vcpu,
            final(self).mem_mappings == old(self).mem_mappings,
            final(self).cfg == old(self).cfg,
    {
        let (state, action) = crate::vm::run::on_exit(self.state, upcall_pending, exit, hypercall_port);
        self.state = state;
        action
    }

    /// The guest's memory at guest address `addr` (taken as a virtual
    /// address, of which the low 48 bits count): the bytes of the first
    /// region holding it.
    pub fn dump_region(&self, addr: u64) -> (r: Result<Vec<u8>, VmError>)
        ensures
            ({
                let paddr = addr & 0xFFFF_FFFF_FFFFu64;
                let i = crate::memory::region::first_cover(self.mem_mappings@, paddr);
                &&& i < 0 ==> (r matches Err(VmError::VmMemoryMappingNotFound(a)) && a == paddr)
                &&& i >= 0 && !self.mem_mappings@[i].2.spec_readable() ==> (r matches Err(
                    VmError::VmMemoryMappingNotReadable(a),
                ) && a == paddr)
                &&& i >= 0 && self.mem_mappings@[i].2.spec_readable() ==> (r matches Ok(v) && v@
                    == self.mem_mappings@[i].2.contents())
            }),
    {
        let paddr = crate::mem::phys_of_virt(addr);
        match self.mem_mappings.get(paddr) {
            Some(region) => match region.as_ref() {
                Some(bytes) => {
                    let mut v: Vec<u8> = Vec::new();
                    let mut k: usize = 0;
                    while k < bytes.len()
                        invariant
                            0 <= k <= bytes@.len(),
                            v@ == bytes@.take(k as int),
                        decreases bytes@.len() - k,
                    {
                        v.push(bytes[k]);
                        k = k + 1;
                        assert(v@ =~= bytes@.take(k as int));
                    }
                    assert(bytes@.take(bytes@.len() as int) =~= bytes@);
                    Ok(v)
                },
                None => Err(VmError::VmMemoryMappingNotReadable(paddr)),
            },
            None => Err(VmError::VmMemoryMappingNotFound(paddr)),
        }
    }

    /// The memory layout table (one page at `layout_table_addr`) and the
    /// page tables, read from the guest's memory.
    pub fn dump_paging(&self, layout_table_addr: u64) -> (r: Result<(Vec<u8>, Vec<u8>), VmError>)
        requires
            self.mem_mappings.wf(),
            self.paging_size <= usize::MAX,
        ensures
            match crate::memory::region::dump_from(self.mem_mappings@, layout_table_addr, 4096) {
                Err(e) => r matches Err(VmError::Region(x)) && x == e,
                Ok(table) => match crate::memory::region::dump_from(
                    self.mem_mappings@,
                    GUEST_PAGING_ADDR,
                    self.paging_size as nat,
                ) {
                    Err(e) => r matches Err(VmError::Region(x)) && x == e,
                    Ok(tables) => r matches Ok(p) && p.0@ == table && p.1@ == tables,
                },
            },
    {
        let table = match self.mem_mappings.dump(layout_table_addr, 0x1000) {
            Ok(t) => t,
            Err(e) => {
                return Err(VmError::Region(e));
            },
        };
        let tables = match self.mem_mappings.dump(guest_paging_addr(), self.paging_size as usize) {
            Ok(t) => t,
            Err(e) => {
                return Err(VmError::Region(e));
            },
        };
        Ok((table, tables))
    }
}

impl<C> Vm<C> {
    /// Execute the hypercall the guest requested in its registers (see
    /// `run::hypercall_done`); on success the changed registers are kept to
    /// be written back.
    pub fn hypercall_exec(&mut self) -> (r: Result<(), VmError>)
        where
            C: Fn(Transport) -> Result<Transport, ExitCode>,
        requires
            forall|i: int, t: Transport|
                0 <= i < old(self).hypercalls@.len() ==> #[trigger] call_requires(
                    old(self).hypercalls@[i].call,
                    (t,),
                ),
        ensures
            hypercall_done(
                old(self).hypercalls@,
                old(self).state,
                old(self).vcpu.spec_regs().value(),
                final(self).state,
                final(self).vcpu.spec_regs().value(),
                r,
            ),
            r is Err ==> final(self).vcpu == old(self).vcpu,
            r is Ok ==> final(self).vcpu.spec_regs().is_dirty(),
            final(self).vcpu.spec_sregs() == old(self).vcpu.spec_sregs(),
            final(self).vcpu.stale() == old(self).vcpu.stale(),
            final(self).mem_mappings == old(self).mem_mappings,
            final(self).cfg == old(self).cfg,
    {
        let mut regs = self.vcpu.regs();
        let mut state = self.state;
        let res = hypercall_exec(&mut state, &mut regs, &self.hypercalls);
        self.state = state;
        if res.is_ok() {
            self.vcpu.set_regs(regs);
        }
        res
    }

    /// Prepare the upcall with signature `sig` on the arguments `transport`
    /// (see `run::upcall_prepared`); on success the changed registers are
    /// kept to be written back.
    pub fn upcall_exec_setup(&mut self, sig: u64, transport: Transport) -> (r: Result<(), VmError>)
        ensures
            upcall_prepared(
                old(self).upcalls@,
                sig,
                transport,
                old(self).state,
                old(self).vcpu.spec_regs().value(),
                final(self).state,
                final(self).vcpu.spec_regs().value(),
                r,
            ),
            r is Err ==> final(self).vcpu == old(self).vcpu,
            r is Ok ==> final(self).vcpu.spec_regs().is_dirty(),
            final(self).vcpu.spec_sregs() == old(self).vcpu.spec_sregs(),
            final(self).vcpu.stale() == old(self).vcpu.stale(),
            final(self).mem_mappings == old(self).mem_mappings,
            final(self).cfg == old(self).cfg,
    {
        let mut regs = self.vcpu.regs();
        let mut state = self.state;
        let res = upcall_exec_setup(&mut state, &mut regs, &self.upcalls, sig, transport);
        self.state = state;
        if res.is_ok() {
            self.vcpu.set_regs(regs);
        }
        res
    }

    /// The result the guest left in its registers after an upcall.
    pub fn upcall_result(&self) -> (r: Transport)
        ensures
            r.primary == self.vcpu.spec_regs().value().r8,
            r.secondary == self.vcpu.spec_regs().value().r9,
    {
        let regs = self.vcpu.regs();
        upcall_result(&regs)
    }
}
} // verus!
