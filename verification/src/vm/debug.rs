//! Register access for a debugger attached to the guest: the registers by
//! the numbering of the x86-64 core register set, read and written as
//! little-endian bytes.
use vstd::prelude::*;
use crate::paging::{le_u64, load_u64};
use crate::vm::vcpu::{Regs, SRegs, VcpuState};

verus! {

/// A register of the x86-64 core register set.
#[derive(Debug, Clone, Copy, PartialEq, Eq, Structural)]
pub enum CoreRegId {
    /// General-purpose register: RAX, RBX, RCX, RDX, RSI, RDI, RBP, RSP,
    /// then r8 to r15.
    Gpr(u8),
    Rip,
    Eflags,
    Segment(u8),
    St(u8),
    Fpu(u8),
    Xmm(u8),
    Mxcsr,
}

/// The bases of the segment registers, cut to 32 bits.
#[derive(Debug, Clone, Copy, PartialEq, Eq, Structural)]
pub struct SegmentRegs {
    pub cs: u32,
    pub ss: u32,
    pub ds: u32,
    pub es: u32,
    pub fs: u32,
    pub gs: u32,
}

/// The core registers as a debugger sees them.
#[derive(Debug, Clone, Copy)]
pub struct CoreRegs {
    /// RAX, RBX, RCX, RDX, RSI, RDI, RBP, RSP, then r8 to r15.
    pub regs: [u64; 16],
    pub rip: u64,
    pub eflags: u32,
    pub segments: SegmentRegs,
}

/// The general-purpose registers of `r` in the debugger's order.
pub open spec fn gprs(r: Regs) -> Seq<u64> {
    seq![r.rax, r.rbx, r.rcx, r.rdx, r.rsi, r.rdi, r.rbp, r.rsp, r.r8, r.r9, r.r10, r.r11, r.r12, r.r13, r.r14, r.r15]
}

/// The value of register `id` in `r`, for the registers a debugger may
/// access one at a time: the general-purpose ones, the instruction pointer
/// and the flags.
pub open spec fn reg_value(r: Regs, id: CoreRegId) -> Option<u64> {
    match id {
        CoreRegId::Gpr(i) => if i < 16 {
            Some(gprs(r)[i as int])
        } else {
            None
        },
        CoreRegId::Rip => Some(r.rip),
        CoreRegId::Eflags => Some(r.rflags),
        _ => None,
    }
}

/// `r` with register `id` set to `v` (for a register `reg_value` knows).
pub open spec fn with_reg(r: Regs, id: CoreRegId, v: u64) -> Regs {
    match id {
        CoreRegId::Gpr(i) => if i == 0 {
            Regs { rax: v, ..r }
        } else if i == 1 {
            Regs { rbx: v, ..r }
        } else if i == 2 {
            Regs { rcx: v, ..r }
        } else if i == 3 {
            Regs { rdx: v, ..r }
        } else if i == 4 {
            Regs { rsi: v, ..r }
        } else if i == 5 {
            Regs { rdi: v, ..r }
        } else if i == 6 {
            Regs { rbp: v, ..r }
        } else if i == 7 {
            Regs { rsp: v, ..r }
        } else if i == 8 {
            Regs { r8: v, ..r }
        } else if i == 9 {
            Regs { r9: v, ..r }
        } else if i == 10 {
            Regs { r10: v, ..r }
        } else if i == 11 {
            Regs { r11: v, ..r }
        } else if i == 12 {
            Regs { r12: v, ..r }
        } else if i == 13 {
            Regs { r13: v, ..r }
        } else if i == 14 {
            Regs { r14: v, ..r }
        } else {
            Regs { r15: v, ..r }
        },
        CoreRegId::Rip => Regs { rip: v, ..r },
        _ => Regs { rflags: v, ..r },
    }
}

/// Writing a register the debugger may access one at a time and reading it
/// back gives the value written, and no other register changes: general
/// purpose register `i` is entry `i` of `gprs`, and writing it updates just
/// that entry.
pub proof fn law_register_write_read(r: Regs, id: CoreRegId, v: u64, other: CoreRegId)
    requires
        reg_value(r, id) is Some,
    ensures
        reg_value(with_reg(r, id, v), id) == Some(v),
        other != id ==> reg_value(with_reg(r, id, v), other) == reg_value(r, other),
        id matches CoreRegId::Gpr(i) ==> gprs(with_reg(r, id, v)) == gprs(r).update(i as int, v),
        id matches CoreRegId::Gpr(_) ==> with_reg(r, id, v).rip == r.rip && with_reg(r, id, v).rflags
            == r.rflags,
{
    let w = with_reg(r, id, v);
    match id {
        CoreRegId::Gpr(i) => {
            assert(gprs(w) =~= gprs(r).update(i as int, v));
            match other {
                CoreRegId::Gpr(j) => {
                    if j != i && j < 16 {
                        assert(gprs(w)[j as int] == gprs(r)[j as int]);
                    }
                },
                _ => {},
            }
        },
        _ => {
            assert(gprs(w) =~= gprs(r));
        },
    }
}

/// The numbering of the x86-64 core register set: general-purpose
/// registers 0 to 7 are RAX, RBX, RCX, RDX, RSI, RDI, RBP and RSP, 8 to 15
/// are r8 to r15, and there are no others; then the instruction pointer and
/// the flags.
pub proof fn law_register_numbering(r: Regs, i: u8)
    ensures
        reg_value(r, CoreRegId::Gpr(0)) == Some(r.rax),
        reg_value(r, CoreRegId::Gpr(1)) == Some(r.rbx),
        reg_value(r, CoreRegId::Gpr(2)) == Some(r.rcx),
        reg_value(r, CoreRegId::Gpr(3)) == Some(r.rdx),
        reg_value(r, CoreRegId::Gpr(4)) == Some(r.rsi),
        reg_value(r, CoreRegId::Gpr(5)) == Some(r.rdi),
        reg_value(r, CoreRegId::Gpr(6)) == Some(r.rbp),
        reg_value(r, CoreRegId::Gpr(7)) == Some(r.rsp),
        reg_value(r, CoreRegId::Gpr(8)) == Some(r.r8),
        reg_value(r, CoreRegId::Gpr(9)) == Some(r.r9),
        reg_value(r, CoreRegId::Gpr(10)) == Some(r.r10),
        reg_value(r, CoreRegId::Gpr(11)) == Some(r.r11),
        reg_value(r, CoreRegId::Gpr(12)) == Some(r.r12),
        reg_value(r, CoreRegId::Gpr(13)) == Some(r.r13),
        reg_value(r, CoreRegId::Gpr(14)) == Some(r.r14),
        reg_value(r, CoreRegId::Gpr(15)) == Some(r.r15),
        i >= 16 ==> reg_value(r, CoreRegId::Gpr(i)) is None,
        reg_value(r, CoreRegId::Rip) == Some(r.rip),
        reg_value(r, CoreRegId::Eflags) == Some(r.rflags),
{
}

fn reg_get(r: &Regs, id: CoreRegId) -> (v: Option<u64>)
    ensures
        v == reg_value(*r, id),
{
    match id {
        CoreRegId::Gpr(i) => match i {
            0 => Some(r.rax),
            1 => Some(r.rbx),
            2 => Some(r.rcx),
            3 => Some(r.rdx),
            4 => Some(r.rsi),
            5 => Some(r.rdi),
            6 => Some(r.rbp),
            7 => Some(r.rsp),
            8 => Some(r.r8),
            9 => Some(r.r9),
            10 => Some(r.r10),
            11 => Some(r.r11),
            12 => Some(r.r12),
            13 => Some(r.r13),
            14 => Some(r.r14),
            15 => Some(r.r15),
            _ => None,
        },
        CoreRegId::Rip => Some(r.rip),
        CoreRegId::Eflags => Some(r.rflags),
        _ => None,
    }
}

fn reg_set(r: &mut Regs, id: CoreRegId, v: u64)
    requires
        reg_value(*old(r), id) is Some,
    ensures
        *final(r) == with_reg(*old(r), id, v),
{
    match id {
        CoreRegId::Gpr(i) => match i {
            0 => r.rax = v,
            1 => r.rbx = v,
            2 => r.rcx = v,
            3 => r.rdx = v,
            4 => r.rsi = v,
            5 => r.rdi = v,
            6 => r.rbp = v,
            7 => r.rsp = v,
            8 => r.r8 = v,
            9 => r.r9 = v,
            10 => r.r10 = v,
            11 => r.r11 = v,
            12 => r.r12 = v,
            13 => r.r13 = v,
            14 => r.r14 = v,
            _ => r.r15 = v,
        },
        CoreRegId::Rip => r.rip = v,
        _ => r.rflags = v,
    }
}

/// Store `v` as 8 little-endian bytes at the start of `buf`.
fn put_u64(buf: &mut [u8], v: u64)
    requires
        old(buf)@.len() == 8,
    ensures
        final(buf)@.len() == 8,
        le_u64(final(buf)@, 0) == v,
{
    let c0 = v & 0xff;
    let c1 = (v >> 8u64) & 0xff;
    let c2 = (v >> 16u64) & 0xff;
    let c3 = (v >> 24u64) & 0xff;
    let c4 = (v >> 32u64) & 0xff;
    let c5 = (v >> 40u64) & 0xff;
    let c6 = (v >> 48u64) & 0xff;
    let c7 = (v >> 56u64) & 0xff;
    assert(c0 < 256 && c1 < 256 && c2 < 256 && c3 < 256 && c4 < 256 && c5 < 256 && c6 < 256 && c7
        < 256 && c0 | (c1 << 8u64) | (c2 << 16u64) | (c3 << 24u64) | (c4 << 32u64) | (c5 << 40u64)
        | (c6 << 48u64) | (c7 << 56u64) == v) by (bit_vector)
        requires
            c0 == v & 0xff,
            c1 == (v >> 8u64) & 0xff,
            c2 == (v >> 16u64) & 0xff,
            c3 == (v >> 24u64) & 0xff,
            c4 == (v >> 32u64) & 0xff,
            c5 == (v >> 40u64) & 0xff,
            c6 == (v >> 48u64) & 0xff,
            c7 == (v >> 56u64) & 0xff,
    ;
    buf[0] = c0 as u8;
    buf[1] = c1 as u8;
    buf[2] = c2 as u8;
    buf[3] = c3 as u8;
    buf[4] = c4 as u8;
    buf[5] = c5 as u8;
    buf[6] = c6 as u8;
    buf[7] = c7 as u8;
}

/// The core registers of the CPU: the general-purpose registers, the
/// instruction pointer, the low 32 bits of the flags and of each segment
/// base.
pub fn read_registers(regs: &Regs, sregs: &SRegs) -> (r: CoreRegs)
    ensures
        r.regs@ == gprs(*regs),
        r.rip == regs.rip,
        r.eflags == regs.rflags as u32,
        r.segments == (SegmentRegs {
            cs: sregs.cs.base as u32,
            ss: sregs.ss.base as u32,
            ds: sregs.ds.base as u32,
            es: sregs.es.base as u32,
            fs: sregs.fs.base as u32,
            gs: sregs.gs.base as u32,
        }),
{
    let r = CoreRegs {
        regs: [
            regs.rax,
            regs.rbx,
            regs.rcx,
            regs.rdx,
            regs.rsi,
            regs.rdi,
            regs.rbp,
            regs.rsp,
            regs.r8,
            regs.r9,
            regs.r10,
            regs.r11,
            regs.r12,
            regs.r13,
            regs.r14,
            regs.r15,
        ],
        rip: regs.rip,
        eflags: regs.rflags as u32,
        segments: SegmentRegs {
            cs: sregs.cs.base as u32,
            ss: sregs.ss.base as u32,
            ds: sregs.ds.base as u32,
            es: sregs.es.base as u32,
            fs: sregs.fs.base as u32,
            gs: sregs.gs.base as u32,
        },
    };
    assert(r.regs@ =~= gprs(*regs));
    r
}

impl VcpuState {
    /// Set the general-purpose registers and the instruction pointer from
    /// the debugger's `input`; the flags stay.
    pub fn write_registers(&mut self, input: &CoreRegs)
        ensures
            gprs(final(self).spec_regs().value()) == input.regs@,
            final(self).spec_regs().value().rip == input.rip,
            final(self).spec_regs().value().rflags == old(self).spec_regs().value().rflags,
            final(self).spec_regs().is_dirty(),
            final(self).spec_sregs() == old(self).spec_sregs(),
            final(self).stale() == old(self).stale(),
    {
        let mut r = self.regs();
        r.rip = input.rip;
        r.rax = input.regs[0];
        r.rbx = input.regs[1];
        r.rcx = input.regs[2];
        r.rdx = input.regs[3];
        r.rsi = input.regs[4];
        r.rdi = input.regs[5];
        r.rbp = input.regs[6];
        r.rsp = input.regs[7];
        r.r8 = input.regs[8];
        r.r9 = input.regs[9];
        r.r10 = input.regs[10];
        r.r11 = input.regs[11];
        r.r12 = input.regs[12];
        r.r13 = input.regs[13];
        r.r14 = input.regs[14];
        r.r15 = input.regs[15];
        self.set_regs(r);
        assert(gprs(r) =~= input.regs@);
    }

    /// Read register `id` into `buf` as 8 little-endian bytes; registers the
    /// debugger may not access one at a time are an error.
    pub fn read_register(&self, id: CoreRegId, buf: &mut [u8]) -> (r: Result<usize, ()>)
        requires
            reg_value(self.spec_regs().value(), id) is Some ==> old(buf)@.len() == 8,
        ensures
            match reg_value(self.spec_regs().value(), id) {
                Some(v) => r == Ok::<usize, ()>(8) && le_u64(final(buf)@, 0) == v
                    && final(buf)@.len() == 8,
                None => r is Err && final(buf)@ == old(buf)@,
            },
    {
        let regs = self.regs();
        match reg_get(&regs, id) {
            Some(v) => {
                put_u64(buf, v);
                Ok(8)
            },
            None => Err(()),
        }
    }

    /// Write register `id` from the 8 little-endian bytes `val`. A value of
    /// another length, or a register the debugger may not access one at a
    /// time, is an error and leaves everything as it was, pending changes
    /// included.
    pub fn write_register(&mut self, id: CoreRegId, val: &[u8]) -> (r: Result<(), ()>)
        ensures
            val@.len() != 8 ==> r is Err && *final(self) == *old(self),
            val@.len() == 8 && reg_value(old(self).spec_regs().value(), id) is None ==> {
                &&& r is Err
                &&& *final(self) == *old(self)
            },
            val@.len() == 8 && reg_value(old(self).spec_regs().value(), id) is Some ==> {
                &&& r is Ok
                &&& final(self).spec_regs().value() == with_reg(
                    old(self).spec_regs().value(),
                    id,
                    le_u64(val@, 0),
                )
                &&& final(self).spec_regs().is_dirty()
            },
            final(self).spec_sregs() == old(self).spec_sregs(),
            final(self).stale() == old(self).stale(),
    {
        if val.len() != 8 {
            return Err(());
        }
        let value = load_u64(val, 0);
        let mut regs = self.regs();
        match reg_get(&regs, id) {
            Some(_) => {
                reg_set(&mut regs, id, value);
                self.set_regs(regs);
                Ok(())
            },
            None => Err(()),
        }
    }
}

} // verus!
