//! The registers of the guest's virtual CPU, as far as the host sets or
//! reads them, and how setup brings the CPU into 64-bit long mode.
use vstd::prelude::*;
use crate::descriptors::{GDT_BASE, GDT_ENTRY_SIZE, GDT_LIMIT, IDT_ENTRY_SIZE};
use crate::utils::Dirty;

verus! {

/// CR0: Protection Enabled.
pub const CR0_PE: u64 = 1;
/// CR0: Extension Type.
pub const CR0_ET: u64 = 0x10;
/// CR0: Write Protect.
pub const CR0_WP: u64 = 0x1_0000;
/// CR0: Paging.
pub const CR0_PG: u64 = 0x8000_0000;
/// CR4: Debugging Extensions.
pub const CR4_DE: u64 = 0x8;
/// CR4: Page Size Extension.
pub const CR4_PSE: u64 = 0x10;
/// CR4: Physical-Address Extension.
pub const CR4_PAE: u64 = 0x20;
/// CR4: Page-Global Enable.
pub const CR4_PGE: u64 = 0x80;
/// EFER: Long Mode Enabled.
pub const EFER_LME: u64 = 0x100;
/// EFER: Long Mode Active.
pub const EFER_LMA: u64 = 0x400;
/// EFER: No-Execute Enable.
pub const EFER_NX: u64 = 0x800;
/// RFLAGS: the bit that is always set.
pub const RFLAGS_RESERVED: u64 = 0x2;
/// RFLAGS: Trap Flag, which makes the CPU stop after each instruction.
pub const RFLAGS_TF: u64 = 0x100;

/// The general-purpose registers, the instruction pointer and the flags.
#[derive(Debug, Clone, Copy, PartialEq, Eq, Structural)]
pub struct Regs {
    pub rax: u64,
    pub rbx: u64,
    pub rcx: u64,
    pub rdx: u64,
    pub rsi: u64,
    pub rdi: u64,
    pub rsp: u64,
    pub rbp: u64,
    pub r8: u64,
    pub r9: u64,
    pub r10: u64,
    pub r11: u64,
    pub r12: u64,
    pub r13: u64,
    pub r14: u64,
    pub r15: u64,
    pub rip: u64,
    pub rflags: u64,
}

/// A segment register.
#[derive(Debug, Clone, Copy, PartialEq, Eq, Structural)]
pub struct Segment {
    pub base: u64,
    pub limit: u32,
    pub selector: u16,
    pub type_: u8,
    pub present: u8,
    pub dpl: u8,
    pub db: u8,
    pub s: u8,
    pub l: u8,
    pub g: u8,
}

/// A descriptor table register: where the table is and its limit.
#[derive(Debug, Clone, Copy, PartialEq, Eq, Structural)]
pub struct DTable {
    pub base: u64,
    pub limit: u16,
}

/// The system registers the host sets up or reads.
#[derive(Debug, Clone, Copy, PartialEq, Eq, Structural)]
pub struct SRegs {
    pub cs: Segment,
    pub ds: Segment,
    pub es: Segment,
    pub fs: Segment,
    pub gs: Segment,
    pub ss: Segment,
    pub gdt: DTable,
    pub idt: DTable,
    pub cr0: u64,
    pub cr2: u64,
    pub cr3: u64,
    pub cr4: u64,
    pub efer: u64,
}

/// Where the global descriptor table is, how many entries it has, and the
/// indices of its code and data segments.
#[derive(Debug, Clone, Copy)]
pub struct Gdt {
    pub addr: u64,
    pub entries: usize,
    pub code: u16,
    pub data: u16,
}

/// Where the interrupt descriptor table is and how many entries it has.
#[derive(Debug, Clone, Copy)]
pub struct Idt {
    pub addr: u64,
    pub entries: usize,
}

/// Everything the CPU setup needs: the descriptor tables, the page tables,
/// the stack and the entry point.
#[derive(Debug, Clone, Copy)]
pub struct Setup {
    pub gdt: Gdt,
    pub idt: Idt,
    pub paging: u64,
    pub stack: u64,
    pub entry: u64,
}

/// A flat 64-bit code segment with selector `selector`.
pub open spec fn code_segment(old: Segment, selector: u16) -> Segment {
    Segment {
        base: GDT_BASE,
        limit: GDT_LIMIT as u32,
        selector,
        type_: 0xB,
        present: 1,
        dpl: 0,
        db: 0,
        s: 1,
        l: 1,
        g: 1,
        ..old
    }
}

/// A flat data segment with selector `selector`; its default-size bit
/// stays as it was.
pub open spec fn data_segment(old: Segment, selector: u16) -> Segment {
    Segment {
        base: 0,
        limit: GDT_LIMIT as u32,
        selector,
        type_: 0x2,
        present: 1,
        dpl: 0,
        s: 1,
        l: 0,
        g: 1,
        ..old
    }
}

/// The descriptor table fits the 16-bit limit register, which holds its
/// size in bytes less one.
pub open spec fn gdt_fits(gdt: Gdt) -> bool {
    &&& gdt.entries * 8 <= usize::MAX
    &&& (gdt.entries * 8) % 0x1_0000 != 0
    &&& gdt.code * 8 <= u16::MAX
    &&& gdt.data * 8 <= u16::MAX
}

/// The system registers after pointing them at the descriptor table `gdt`:
/// the table's base and limit, a 64-bit code segment and flat data and
/// stack segments.
pub open spec fn with_gdt(s: SRegs, gdt: Gdt) -> SRegs {
    SRegs {
        gdt: DTable { base: gdt.addr, limit: ((gdt.entries * 8) % 0x1_0000 - 1) as u16 },
        cs: code_segment(s.cs, (gdt.code * 8) as u16),
        ss: data_segment(s.ss, (gdt.data * 8) as u16),
        ds: data_segment(s.ds, (gdt.data * 8) as u16),
        es: data_segment(s.es, (gdt.data * 8) as u16),
        ..s
    }
}

/// The system registers after pointing them at the interrupt descriptor
/// table `idt`.
pub open spec fn with_idt(s: SRegs, idt: Idt) -> SRegs {
    SRegs { idt: DTable { base: idt.addr, limit: (idt.entries * 8) as u16 }, ..s }
}

/// The system registers after enabling paging with the page tables at
/// `addr` and entering long mode.
pub open spec fn with_paging(s: SRegs, addr: u64) -> SRegs {
    SRegs {
        cr0: CR0_PE | CR0_PG | CR0_ET | CR0_WP,
        cr3: addr,
        cr4: CR4_DE | CR4_PSE | CR4_PAE | CR4_PGE,
        efer: s.efer | EFER_LMA | EFER_LME | EFER_NX,
        ..s
    }
}

/// The registers after setting the stack pointer and the entry point.
pub open spec fn with_execution(r: Regs, stack: u64, entry: u64) -> Regs {
    Regs { rflags: RFLAGS_RESERVED, rip: entry, rsp: stack, ..r }
}

/// Point the system registers at the global descriptor table and load the
/// code and data segments it describes.
pub fn setup_gdt(sregs: &mut SRegs, gdt: &Gdt)
    requires
        gdt_fits(*gdt),
    ensures
        *final(sregs) == with_gdt(*old(sregs), *gdt),
{
    let size = gdt.entries * GDT_ENTRY_SIZE;
    let limit = ((size % 0x1_0000) - 1) as u16;
    sregs.gdt = DTable { base: gdt.addr, limit };
    let code_sel = gdt.code * (GDT_ENTRY_SIZE as u16);
    let data_sel = gdt.data * (GDT_ENTRY_SIZE as u16);
    sregs.cs.selector = code_sel;
    sregs.cs.base = GDT_BASE;
    sregs.cs.limit = GDT_LIMIT as u32;
    sregs.cs.present = 1;
    sregs.cs.type_ = 0xB;
    sregs.cs.s = 1;
    sregs.cs.dpl = 0;
    sregs.cs.db = 0;
    sregs.cs.l = 1;
    sregs.cs.g = 1;
    sregs.ss = data_seg(sregs.ss, data_sel);
    sregs.ds = data_seg(sregs.ds, data_sel);
    sregs.es = data_seg(sregs.es, data_sel);
}

fn data_seg(old: Segment, selector: u16) -> (r: Segment)
    ensures
        r == data_segment(old, selector),
{
    let mut s = old;
    s.selector = selector;
    s.base = 0;
    s.limit = GDT_LIMIT as u32;
    s.present = 1;
    s.type_ = 0x2;
    s.s = 1;
    s.dpl = 0;
    s.l = 0;
    s.g = 1;
    s
}

/// Point the system registers at the interrupt descriptor table.
pub fn setup_idt(sregs: &mut SRegs, idt: &Idt)
    requires
        idt.entries * 8 <= usize::MAX,
    ensures
        *final(sregs) == with_idt(*old(sregs), *idt),
{
    let size = idt.entries * IDT_ENTRY_SIZE;
    sregs.idt = DTable { base: idt.addr, limit: size as u16 };
}

/// Enable protected mode, paging with the page tables at `addr`, and long
/// mode.
pub fn setup_paging(sregs: &mut SRegs, addr: u64)
    ensures
        *final(sregs) == with_paging(*old(sregs), addr),
{
    sregs.cr0 = CR0_PE | CR0_PG | CR0_ET | CR0_WP;
    sregs.cr3 = addr;
    sregs.cr4 = CR4_DE | CR4_PSE | CR4_PAE | CR4_PGE;
    sregs.efer = sregs.efer | EFER_LMA | EFER_LME | EFER_NX;
}

/// Set the stack pointer and the instruction pointer.
pub fn setup_execution(regs: &mut Regs, stack: u64, entry: u64)
    ensures
        *final(regs) == with_execution(*old(regs), stack, entry),
{
    regs.rflags = RFLAGS_RESERVED;
    regs.rip = entry;
    regs.rsp = stack;
}

/// The CPU's registers as the host last fetched or changed them, and
/// whether the guest ran since they were fetched.
pub struct VcpuState {
    regs: Dirty<Regs>,
    sregs: Dirty<SRegs>,
    recent_exec: bool,
}

/// What handing out the general-purpose registers to write back does (see
/// `VcpuState::take_regs_update`): `before`'s registers are handed out as
/// `out` if they changed since they were last written back, and count as
/// written back in `after`.
pub open spec fn regs_taken(before: VcpuState, after: VcpuState, out: Option<Regs>) -> bool {
    &&& out is Some == before.spec_regs().is_dirty()
    &&& out matches Some(x) ==> x == before.spec_regs().value()
    &&& after.spec_regs().value() == before.spec_regs().value()
    &&& !after.spec_regs().is_dirty()
    &&& after.spec_sregs() == before.spec_sregs()
    &&& after.stale() == before.stale()
}

/// The host's changes to the registers reach the CPU, and only they: from
/// a state `v` whose registers changed (as `set_regs`, a successful
/// `write_register`, a hypercall or the CPU setup leave them), the next
/// registers to write back are handed out once, with all the changes, and
/// a second take with no change in between hands out nothing; registers
/// that did not change (as `refreshed` leaves them) are not handed out.
pub proof fn law_changes_written_back(
    v: VcpuState,
    v1: VcpuState,
    out1: Option<Regs>,
    v2: VcpuState,
    out2: Option<Regs>,
)
    requires
        regs_taken(v, v1, out1),
        regs_taken(v1, v2, out2),
    ensures
        v.spec_regs().is_dirty() ==> out1 == Some(v.spec_regs().value()),
        !v.spec_regs().is_dirty() ==> out1 is None,
        out2 is None,
        v2.spec_regs().value() == v.spec_regs().value(),
{
}

impl VcpuState {
    pub closed spec fn spec_regs(&self) -> Dirty<Regs> {
        self.regs
    }

    pub closed spec fn spec_sregs(&self) -> Dirty<SRegs> {
        self.sregs
    }

    /// The guest ran since the registers were fetched.
    pub closed spec fn stale(&self) -> bool {
        self.recent_exec
    }

    /// The registers of a freshly created CPU, as fetched.
    pub fn new(regs: Regs, sregs: SRegs) -> (r: VcpuState)
        ensures
            r.spec_regs().value() == regs,
            !r.spec_regs().is_dirty(),
            r.spec_sregs().value() == sregs,
            !r.spec_sregs().is_dirty(),
            !r.stale(),
    {
        VcpuState { regs: Dirty::new(regs), sregs: Dirty::new(sregs), recent_exec: false }
    }

    /// The registers must be fetched again before they are read or changed.
    pub fn needs_refresh(&self) -> (r: bool)
        ensures
            r == self.stale(),
    {
        self.recent_exec
    }

    /// Store freshly fetched registers; they match the CPU, so there is
    /// nothing to write back.
    pub fn refreshed(&mut self, regs: Regs, sregs: SRegs)
        ensures
            final(self).spec_regs().value() == regs,
            !final(self).spec_regs().is_dirty(),
            final(self).spec_sregs().value() == sregs,
            !final(self).spec_sregs().is_dirty(),
            !final(self).stale(),
    {
        self.regs = Dirty::new(regs);
        self.sregs = Dirty::new(sregs);
        self.recent_exec = false;
    }

    /// Record that the guest ran.
    pub fn executed(&mut self)
        ensures
            final(self).spec_regs() == old(self).spec_regs(),
            final(self).spec_sregs() == old(self).spec_sregs(),
            final(self).stale(),
    {
        self.recent_exec = true;
    }

    /// The general-purpose registers.
    pub fn regs(&self) -> (r: Regs)
        ensures
            r == self.spec_regs().value(),
    {
        *self.regs.get()
    }

    /// The system registers.
    pub fn sregs(&self) -> (r: SRegs)
        ensures
            r == self.spec_sregs().value(),
    {
        *self.sregs.get()
    }

    /// Replace the general-purpose registers.
    pub fn set_regs(&mut self, regs: Regs)
        ensures
            final(self).spec_regs().value() == regs,
            final(self).spec_regs().is_dirty(),
            final(self).spec_sregs() == old(self).spec_sregs(),
            final(self).stale() == old(self).stale(),
    {
        self.regs.set(regs);
    }

    /// Replace the system registers.
    pub fn set_sregs(&mut self, sregs: SRegs)
        ensures
            final(self).spec_sregs().value() == sregs,
            final(self).spec_sregs().is_dirty(),
            final(self).spec_regs() == old(self).spec_regs(),
            final(self).stale() == old(self).stale(),
    {
        self.sregs.set(sregs);
    }

    /// The general-purpose registers to write back to the CPU, if they
    /// changed; they count as written afterwards.
    pub fn take_regs_update(&mut self) -> (r: Option<Regs>)
        ensures
            regs_taken(*old(self), *final(self), r),
    {
        if self.regs.dirty() {
            let r = *self.regs.get();
            self.regs.clear();
            Some(r)
        } else {
            None
        }
    }

    /// The system registers to write back to the CPU, if they changed; they
    /// count as written afterwards.
    pub fn take_sregs_update(&mut self) -> (r: Option<SRegs>)
        ensures
            r is Some == old(self).spec_sregs().is_dirty(),
            r matches Some(x) ==> x == old(self).spec_sregs().value(),
            final(self).spec_sregs().value() == old(self).spec_sregs().value(),
            !final(self).spec_sregs().is_dirty(),
            final(self).spec_regs() == old(self).spec_regs(),
            final(self).stale() == old(self).stale(),
    {
        if self.sregs.dirty() {
            let r = *self.sregs.get();
            self.sregs.clear();
            Some(r)
        } else {
            None
        }
    }

    /// Set up the descriptor tables, paging and the execution registers for
    /// long mode (the CPUID table is set up by whoever holds the CPU).
    pub fn setup(&mut self, setup: &Setup)
        requires
            gdt_fits(setup.gdt),
            setup.idt.entries * 8 <= usize::MAX,
        ensures
            final(self).spec_sregs().value() == with_paging(
                with_idt(with_gdt(old(self).spec_sregs().value(), setup.gdt), setup.idt),
                setup.paging,
            ),
            final(self).spec_sregs().is_dirty(),
            final(self).spec_regs().value() == with_execution(
                old(self).spec_regs().value(),
                setup.stack,
                setup.entry,
            ),
            final(self).spec_regs().is_dirty(),
            final(self).stale() == old(self).stale(),
    {
        let mut s = *self.sregs.get();
        setup_gdt(&mut s, &setup.gdt);
        setup_idt(&mut s, &setup.idt);
        setup_paging(&mut s, setup.paging);
        self.sregs.set(s);
        let mut r = *self.regs.get();
        setup_execution(&mut r, setup.stack, setup.entry);
        self.regs.set(r);
    }

    /// Make the CPU stop after the next instruction: set the trap flag.
    pub fn enable_single_step(&mut self)
        ensures
            final(self).spec_regs().value() == (Regs {
                rflags: old(self).spec_regs().value().rflags | RFLAGS_TF,
                ..old(self).spec_regs().value()
            }),
            final(self).spec_regs().is_dirty(),
            final(self).spec_sregs() == old(self).spec_sregs(),
            final(self).stale() == old(self).stale(),
    {
        let mut r = *self.regs.get();
        r.rflags = r.rflags | RFLAGS_TF;
        self.regs.set(r);
    }
}

} // verus!
