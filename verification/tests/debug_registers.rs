use bmvm_host::vm::debug::{read_registers, CoreRegId, CoreRegs, SegmentRegs};
use bmvm_host::vm::vcpu::{DTable, Regs, SRegs, Segment, VcpuState};

fn regs() -> Regs {
    Regs {
        rax: 1, rbx: 2, rcx: 3, rdx: 4, rsi: 5, rdi: 6, rsp: 7, rbp: 8,
        r8: 9, r9: 10, r10: 11, r11: 12, r12: 13, r13: 14, r14: 15, r15: 16, rip: 17, rflags: 0x1_0000_0202,
    }
}

fn seg(base: u64) -> Segment {
    Segment { base, limit: 0, selector: 0, type_: 0, present: 0, dpl: 0, db: 0, s: 0, l: 0, g: 0 }
}

fn sregs() -> SRegs {
    let d = DTable { base: 0, limit: 0 };
    SRegs {
        cs: seg(0x1_0000_0010), ds: seg(0x20), es: seg(0x30), fs: seg(0x40), gs: seg(0x50), ss: seg(0x60),
        gdt: d, idt: d, cr0: 0, cr2: 0, cr3: 0, cr4: 0, efer: 0,
    }
}

#[test]
fn core_registers_in_debugger_order() {
    let c = read_registers(&regs(), &sregs());
    assert_eq!(c.regs, [1, 2, 3, 4, 5, 6, 8, 7, 9, 10, 11, 12, 13, 14, 15, 16]);
    assert_eq!(c.rip, 17);
    assert_eq!(c.eflags, 0x202);
    assert_eq!(c.segments, SegmentRegs { cs: 0x10, ss: 0x60, ds: 0x20, es: 0x30, fs: 0x40, gs: 0x50 });
}

#[test]
fn writing_all_core_registers() {
    let mut v = VcpuState::new(regs(), sregs());
    let input = CoreRegs {
        regs: [100, 101, 102, 103, 104, 105, 106, 107, 108, 109, 110, 111, 112, 113, 114, 115],
        rip: 0x4000,
        eflags: 0,
        segments: SegmentRegs { cs: 0, ss: 0, ds: 0, es: 0, fs: 0, gs: 0 },
    };
    v.write_registers(&input);
    let r = v.regs();
    assert_eq!((r.rax, r.rbp, r.rsp, r.r15, r.rip), (100, 106, 107, 115, 0x4000));
    assert_eq!(r.rflags, regs().rflags);
    assert_eq!(v.take_regs_update(), Some(r));
}

#[test]
fn single_register_access() {
    let mut v = VcpuState::new(regs(), sregs());
    let mut buf = [0u8; 8];
    assert_eq!(v.read_register(CoreRegId::Gpr(6), &mut buf), Ok(8));
    assert_eq!(u64::from_le_bytes(buf), 8);
    assert_eq!(v.read_register(CoreRegId::Rip, &mut buf), Ok(8));
    assert_eq!(u64::from_le_bytes(buf), 17);
    assert_eq!(v.read_register(CoreRegId::Gpr(16), &mut buf), Err(()));
    assert_eq!(v.read_register(CoreRegId::Mxcsr, &mut buf), Err(()));

    assert_eq!(v.write_register(CoreRegId::Gpr(9), &0x1234u64.to_le_bytes()), Ok(()));
    assert_eq!(v.regs().r9, 0x1234);
    assert_eq!(v.write_register(CoreRegId::Eflags, &2u64.to_le_bytes()), Ok(()));
    assert_eq!(v.regs().rflags, 2);
    // the wrong length changes nothing
    assert_eq!(v.write_register(CoreRegId::Gpr(0), &[1, 2, 3]), Err(()));
    assert_eq!(v.regs().rax, 1);
    // an unsupported register is an error that keeps pending changes
    assert_eq!(v.write_register(CoreRegId::Segment(0), &5u64.to_le_bytes()), Err(()));
    assert_eq!(v.write_register(CoreRegId::Mxcsr, &5u64.to_le_bytes()), Err(()));
    let pending = v.take_regs_update().unwrap();
    assert_eq!((pending.r9, pending.rflags), (0x1234, 2));
    assert_eq!(v.take_regs_update(), None);
}
