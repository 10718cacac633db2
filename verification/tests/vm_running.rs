use bmvm_host::linker::config::ConfigBuilder as LinkerConfigBuilder;
use bmvm_host::linker::linker::{ConversionError, LinkError};
use bmvm_host::linker::{FnCall, UpcallPtr};
use bmvm_host::runtime::Module;
use bmvm_host::elf::ExecBundle;
use bmvm_host::linker::{hypercall, upcall, Func};
use bmvm_host::memory::perm::ReadWrite;
use bmvm_host::memory::region::{ProtoRegion, RegionCollection, RegionEntry};
use bmvm_host::mem::{Flags, LayoutTableEntry, FLAG_PRESENT};
use bmvm_host::runtime::{ModuleBuilder, RuntimeError, Source};
use bmvm_host::vm::config::{Config, ConfigBuilder};
use bmvm_host::vm::registry::{Hypercalls, RegistryError, Upcalls};
use bmvm_host::vm::run::{
    hypercall_exec, on_exit, react_to_exit_code, start_run, upcall_exec_setup, upcall_result, Action,
    State, VmError, VmExit,
};
use bmvm_host::vm::vcpu::{
    setup_execution, setup_gdt, setup_idt, setup_paging, DTable, Gdt, Idt, Regs, SRegs, Segment,
    VcpuState,
};
use bmvm_host::vm::vm::{check_mappable, check_sizes, Vm};
use bmvm_host::vmi::{ExitCode, Transport};

type Call = fn(Transport) -> Result<Transport, ExitCode>;

fn double(t: Transport) -> Result<Transport, ExitCode> {
    Ok(Transport::new(t.primary() * 2, t.secondary() + 1))
}

fn fail(_: Transport) -> Result<Transport, ExitCode> {
    Err(ExitCode::AllocatorFailed)
}

fn func(sig: u64, name: &str) -> Func {
    Func { sig, name: name.to_string(), params: vec![], output: None }
}

fn hyper(sig: u64, call: Call) -> hypercall::Function<Call> {
    hypercall::Function { func: func(sig, "f"), call }
}

fn regs() -> Regs {
    Regs {
        rax: 0, rbx: 0, rcx: 0, rdx: 0, rsi: 0, rdi: 0, rsp: 0, rbp: 0,
        r8: 0, r9: 0, r10: 0, r11: 0, r12: 0, r13: 0, r14: 0, r15: 0, rip: 0, rflags: 0,
    }
}

fn seg() -> Segment {
    Segment { base: 5, limit: 5, selector: 5, type_: 5, present: 0, dpl: 3, db: 1, s: 0, l: 0, g: 0 }
}

fn sregs() -> SRegs {
    let d = DTable { base: 0, limit: 0 };
    SRegs { cs: seg(), ds: seg(), es: seg(), fs: seg(), gs: seg(), ss: seg(), gdt: d, idt: d, cr0: 0, cr2: 0, cr3: 0, cr4: 0, efer: 1 }
}

#[test]
fn hypercalls_found_by_signature() {
    let h = Hypercalls::from(vec![hyper(30, double), hyper(10, double), hyper(20, fail)]);
    assert_eq!(h.try_execute(10, Transport::new(4, 5)), Ok(Transport::new(8, 6)));
    assert_eq!(h.try_execute(30, Transport::new(1, 1)), Ok(Transport::new(2, 2)));
    assert_eq!(h.try_execute(20, Transport::new(1, 1)), Err(RegistryError::HypercallExec(ExitCode::AllocatorFailed)));
    assert_eq!(h.try_execute(15, Transport::new(1, 1)), Err(RegistryError::UnknownFunction(15)));
    let empty: Hypercalls<Call> = Hypercalls::default();
    assert_eq!(empty.try_execute(1, Transport::new(0, 0)), Err(RegistryError::UnknownFunction(1)));
}

#[test]
fn upcalls_found_by_signature() {
    let mut linked = upcall::Function::new("cb", 7, vec![], None);
    linked.link(0x4000);
    let u = Upcalls::from(vec![upcall::Function::new("cb", 7, vec![], None), linked, upcall::Function::new("x", 8, vec![], None)]);
    assert_eq!(u.find_upcall(7).unwrap().ptr(), Some(0x4000));
    assert_eq!(u.find_upcall(8).err(), Some(RegistryError::UnlikedUpcall(8)));
    assert_eq!(u.find_upcall(9).err(), Some(RegistryError::UnknownFunction(9)));
    assert_eq!(Upcalls::default().find_upcall(7).err(), Some(RegistryError::UnknownFunction(7)));
}

#[test]
fn exits_decide_the_next_step() {
    let port = 0x10;
    let (s, pending) = start_run(State::Ready);
    assert_eq!(s, State::Executing);
    assert!(!pending);
    assert!(matches!(on_exit(s, false, VmExit::IoOut(0x10), port), (State::Executing, Action::Hypercall)));
    assert!(matches!(on_exit(s, false, VmExit::IoOut(0x11), port), (State::Executing, Action::IgnoreIo(0x11))));
    assert!(matches!(on_exit(s, false, VmExit::Hlt(ExitCode::Normal), port), (State::Shutdown, Action::Finish(None))));
    assert!(matches!(on_exit(s, false, VmExit::Hlt(ExitCode::Ready), port), (State::Ready, Action::Finish(None))));
    assert!(matches!(on_exit(s, false, VmExit::Debug, port), (State::Executing, Action::Debug)));
    assert!(matches!(on_exit(s, false, VmExit::Other, port), (State::Executing, Action::Unexpected)));
    assert!(matches!(
        on_exit(s, false, VmExit::Hlt(ExitCode::InvalidMemoryLayout), port),
        (State::Executing, Action::Fail(VmError::UnhandledHalt(ExitCode::InvalidMemoryLayout)))
    ));
}

#[test]
fn upcall_return_only_after_an_upcall() {
    let (s, pending) = start_run(State::UpcallExec);
    assert!(pending);
    assert!(matches!(on_exit(s, pending, VmExit::Hlt(ExitCode::Return), 0), (State::Ready, Action::Finish(None))));
    // the next run, without a new upcall, may not return
    let (s2, pending2) = start_run(State::Ready);
    assert!(!pending2);
    assert!(matches!(
        on_exit(s2, pending2, VmExit::Hlt(ExitCode::Return), 0),
        (State::Executing, Action::Fail(VmError::UnexpectedUpcallReturn))
    ));
    let (s, pending) = start_run(State::Ready);
    assert!(matches!(
        on_exit(s, pending, VmExit::Hlt(ExitCode::Return), 0),
        (State::Executing, Action::Fail(VmError::UnexpectedUpcallReturn))
    ));
}

#[test]
fn layout_errors_dump_the_layout_table() {
    assert_eq!(react_to_exit_code(ExitCode::InvalidMemoryLayout), Some(0));
    assert_eq!(react_to_exit_code(ExitCode::InvalidMemoryLayoutTableTooSmall), Some(0));
    assert_eq!(react_to_exit_code(ExitCode::InvalidMemoryLayoutTableMisaligned), Some(0));
    assert_eq!(react_to_exit_code(ExitCode::Normal), None);
    assert_eq!(react_to_exit_code(ExitCode::Other(42)), None);
}

#[test]
fn hypercall_through_registers() {
    let h = Hypercalls::from(vec![hyper(10, double), hyper(20, fail)]);
    let mut state = State::Executing;
    let mut r = Regs { rbx: 10, r8: 21, r9: 1, rip: 0x77, ..regs() };
    assert!(hypercall_exec(&mut state, &mut r, &h).is_ok());
    assert_eq!(state, State::Executing);
    assert_eq!((r.r8, r.r9, r.rip, r.rbx), (42, 2, 0x77, 10));

    let mut r = Regs { rbx: 20, r8: 1, ..regs() };
    assert!(matches!(
        hypercall_exec(&mut state, &mut r, &h),
        Err(VmError::HypercallError(RegistryError::HypercallExec(ExitCode::AllocatorFailed)))
    ));
    assert_eq!(state, State::HypercallExec);
    assert_eq!(r.r8, 1);

    let mut state = State::Executing;
    let mut r = Regs { rbx: 99, ..regs() };
    assert!(matches!(
        hypercall_exec(&mut state, &mut r, &h),
        Err(VmError::HypercallError(RegistryError::UnknownFunction(99)))
    ));
}

#[test]
fn upcall_through_registers() {
    let mut f = upcall::Function::new("cb", 7, vec![], None);
    f.link(0x4000);
    let u = Upcalls::from(vec![f, upcall::Function::new("x", 8, vec![], None)]);
    let mut state = State::Ready;
    let mut r = regs();
    assert!(upcall_exec_setup(&mut state, &mut r, &u, 7, Transport::new(3, 4)).is_ok());
    assert_eq!(state, State::UpcallExec);
    assert_eq!((r.r8, r.r9, r.rip), (3, 4, 0x4000));
    assert_eq!(upcall_result(&r), Transport::new(3, 4));

    let mut state = State::Ready;
    let mut r = regs();
    assert!(matches!(
        upcall_exec_setup(&mut state, &mut r, &u, 8, Transport::new(3, 4)),
        Err(VmError::UpcallInitError(RegistryError::UnlikedUpcall(8)))
    ));
    assert_eq!(state, State::Ready);
    assert_eq!(r, regs());
}

#[test]
fn long_mode_registers() {
    let mut s = sregs();
    setup_gdt(&mut s, &Gdt { addr: 0x8000_0000_0000, entries: 3, code: 1, data: 2 });
    assert_eq!(s.gdt, DTable { base: 0x8000_0000_0000, limit: 23 });
    assert_eq!((s.cs.selector, s.cs.type_, s.cs.l, s.cs.db, s.cs.present), (8, 0xB, 1, 0, 1));
    assert_eq!((s.ss.selector, s.ss.type_, s.ss.l, s.ss.base), (16, 2, 0, 0));
    assert_eq!(s.ds.db, 1);
    assert_eq!(s.es.limit, 0xFF_FFFF);
    setup_idt(&mut s, &Idt { addr: 0x8000_0000_1000, entries: 0 });
    assert_eq!(s.idt, DTable { base: 0x8000_0000_1000, limit: 0 });
    setup_paging(&mut s, 0x8000_0000_2000);
    assert_eq!(s.cr0, 0x8001_0011);
    assert_eq!(s.cr3, 0x8000_0000_2000);
    assert_eq!(s.cr4, 0xB8);
    assert_eq!(s.efer, 0xD01);
    let mut r = regs();
    setup_execution(&mut r, 0x7000, 0x1000);
    assert_eq!((r.rflags, r.rip, r.rsp), (2, 0x1000, 0x7000));
}

#[test]
fn register_cache() {
    let mut v = VcpuState::new(regs(), sregs());
    assert!(!v.needs_refresh());
    assert_eq!(v.take_regs_update(), None);
    v.set_regs(Regs { rax: 1, ..regs() });
    assert_eq!(v.take_regs_update(), Some(Regs { rax: 1, ..regs() }));
    assert_eq!(v.take_regs_update(), None);
    v.executed();
    assert!(v.needs_refresh());
    v.refreshed(Regs { rax: 2, ..regs() }, sregs());
    assert!(!v.needs_refresh());
    assert_eq!(v.regs().rax, 2);
    // fetched registers are not written back
    assert_eq!(v.take_regs_update(), None);
    assert_eq!(v.take_sregs_update(), None);
    v.enable_single_step();
    assert_eq!(v.regs().rflags & 0x100, 0x100);
    assert!(v.take_regs_update().is_some());
    assert_eq!(v.sregs(), sregs());
}

#[test]
fn vm_configuration() {
    let c = Config::default();
    assert_eq!((c.stack_size, c.shared_guest, c.shared_host, c.max_memory, c.debug), (0x80_0000, 0x80_0000, 0x80_0000, 0x800_0000, false));
    let c = Config::from(ConfigBuilder::new().stack_size(0x2000).max_memory(1 << 20).debug(true));
    assert_eq!((c.stack_size, c.max_memory, c.debug), (0x2000, 1 << 20, true));
    assert_eq!(ConfigBuilder::new().build(), Config::default());
}

#[test]
fn module_builder_sources() {
    assert!(matches!(ModuleBuilder::new().build(), Err(RuntimeError::MissingExecutable)));
    let p = ModuleBuilder::new().with_path("guest.elf").build().unwrap();
    assert!(matches!(p.source, Source::Path("guest.elf")));
    let cfg = ConfigBuilder::new().debug(true).build();
    let p = ModuleBuilder::new().configure_vm(cfg).with_path("a").build().unwrap();
    assert!(p.vm.debug);
    let p = ModuleBuilder::new()
        .configure_linker(bmvm_host::linker::config::ConfigBuilder::new().error_unused_host(true).build())
        .with_path("b")
        .build()
        .unwrap();
    assert!(p.linker.error_unused_host);
}

#[test]
fn mappable_layouts() {
    let f = Flags::data_read().union(Flags::from_bits(FLAG_PRESENT));
    assert!(check_mappable(&[LayoutTableEntry::new(0x1000, 0x1000, 1, f)], 0x8000_0000_2000));
    assert!(!check_mappable(&[LayoutTableEntry::new(0x1001, 0x1001, 1, f)], 0x8000_0000_2000));
    assert!(!check_mappable(&[LayoutTableEntry::new(0x1000, 0x1000, 1, f)], 0xF_FFFF_FFFF_F000));
}

#[test]
fn loading_an_executable() {
    let cfg = ConfigBuilder::new().stack_size(0x4000).build();
    let mut vm: Vm<Call> = Vm::new(Config { shared_guest: 0x2000, shared_host: 0x2000, ..cfg }, regs(), sregs());
    let code = Flags::code().union(Flags::from_bits(FLAG_PRESENT));
    let mut exec = ExecBundle {
        entry: 0x40_0000,
        mem_regions: RegionCollection::new(),
        layout: vec![LayoutTableEntry::new(0x40_0000, 0x40_0000, 1, code)],
        expose: vec![],
        host: vec![],
        upcalls: vec![],
    };
    vm.load_exec(&mut exec, 0x7F00_0000_0000, 0x7F10_0020_0000, 0x1_0000).unwrap();
    // the executable's segment, the stack, both shared regions, the system region and the layout table
    assert_eq!(exec.layout.len(), 6);
    assert_eq!(exec.layout[1].paddr, 0x7FFF_FFFF_B000);
    assert_eq!(exec.layout[1].len, 4);
    // guest shared memory below the stack, aligned like its host memory (1 GiB)
    assert_eq!(exec.layout[2].paddr, 0x7FFF_C000_0000);
    assert_eq!(exec.layout[2].vaddr, 0x7F00_0000_0000);
    // host shared memory below that, aligned like its host memory (2 MiB)
    assert_eq!(exec.layout[3].paddr, 0x7FFF_BFE0_0000);
    assert_eq!(exec.layout[4].paddr, 0x8000_0000_0000);
    assert_eq!(exec.layout[5].paddr, 0x1_0000);
    // the CPU starts at the entry point with the initial stack and page tables
    assert_eq!(vm.vcpu.regs().rip, 0x40_0000);
    assert_eq!(vm.vcpu.regs().rsp, 0x7FFF_FFFF_EFF0);
    assert_eq!(vm.vcpu.sregs().cr3, 0x8000_0000_2000);
    assert_eq!(vm.vcpu.sregs().gdt.base, 0x8000_0000_0000);
    // the system region holds the descriptor tables
    let sys = vm.dump_region(0x8000_0000_0000).unwrap();
    assert_eq!(sys.len(), 0x2000);
    assert_eq!(&sys[..24], &bmvm_host::descriptors::gdt()[..]);
    assert!(vm.paging_size > 0);
    let (table, tables) = vm.dump_paging(0x1_0000).unwrap();
    assert_eq!(table.len(), 0x1000);
    // the layout table holds the final layout, entry by entry
    let word = |off: usize| u64::from_le_bytes(table[off..off + 8].try_into().unwrap());
    assert_eq!(word(0), 0x40_0000);
    assert_eq!(word(24), exec.layout[1].paddr);
    assert_eq!(word(5 * 24), 0x1_0000);
    assert_eq!(word(5 * 24 + 16), 1 | ((exec.layout[5].flags.bits as u64) << 32));
    assert!(table[6 * 24..].iter().all(|b| *b == 0));
    assert_eq!(tables.len() as u64, vm.paging_size);
    assert!(matches!(vm.dump_region(0x5555_0000), Err(VmError::VmMemoryMappingNotFound(0x5555_0000))));
    let n = vm.mem_mappings.len();
    assert!(n >= 6);
    assert!(matches!(vm.mem_mappings.as_slice()[0].2, RegionEntry::ReadWrite(_)));
}

#[test]
fn vm_registers_follow_calls() {
    let mut vm: Vm<Call> = Vm::new(Config::default(), regs(), sregs());
    let mut f = upcall::Function::new("cb", 7, vec![], None);
    f.link(0x4000);
    vm.link(vec![hyper(10, double)], vec![f]);
    assert!(vm.upcall_exec_setup(7, Transport::new(1, 2)).is_ok());
    assert_eq!(vm.state, State::UpcallExec);
    assert!(vm.start_run());
    assert!(matches!(vm.handle_exit(true, VmExit::Hlt(ExitCode::Return), 0), Action::Finish(None)));
    assert_eq!(vm.state, State::Ready);
    assert_eq!(vm.upcall_result(), Transport::new(1, 2));
    // a second run without a new upcall may not return
    let pending = vm.start_run();
    assert!(!pending);
    assert!(matches!(
        vm.handle_exit(pending, VmExit::Hlt(ExitCode::Return), 0),
        Action::Fail(VmError::UnexpectedUpcallReturn)
    ));
    vm.vcpu.set_regs(Regs { rbx: 10, r8: 5, r9: 0, ..vm.vcpu.regs() });
    assert!(vm.hypercall_exec().is_ok());
    assert_eq!((vm.vcpu.regs().r8, vm.vcpu.regs().r9), (10, 1));
}

fn bundle(
    expose: Vec<FnCall>,
    host: Vec<FnCall>,
    upcalls: Vec<UpcallPtr>,
) -> ExecBundle {
    let code = Flags::code().union(Flags::from_bits(FLAG_PRESENT));
    ExecBundle {
        entry: 0x40_0000,
        mem_regions: RegionCollection::new(),
        layout: vec![LayoutTableEntry::new(0x40_0000, 0x40_0000, 1, code)],
        expose,
        host,
        upcalls,
    }
}

#[test]
fn modules_link_then_load() {
    let cfg = Config { shared_guest: 0x2000, shared_host: 0x2000, ..ConfigBuilder::new().stack_size(0x4000).build() };
    let wanted = FnCall { sig: 10, name: "f".to_string(), debug_param_types: vec![], debug_return_type: None };
    let exposed = FnCall { sig: 7, name: "cb".to_string(), debug_param_types: vec![], debug_return_type: None };
    let linker = LinkerConfigBuilder::new()
        .register_guest_function(upcall::Function::new("cb", 7, vec![], None))
        .build();
    let m: Module<Call> = Module::new(
        cfg,
        linker,
        bundle(vec![exposed], vec![wanted], vec![UpcallPtr { sig: 7, func: 0x40_0100 }]),
        vec![Ok(hyper(10, double))],
        regs(),
        sregs(),
        0x7F00_0000_0000,
        0x7F10_0020_0000,
        0x1_0000,
    )
    .unwrap();
    assert_eq!(m.vm.state, State::PreSetup);
    assert_eq!(m.layout.len(), 6);
    assert_eq!(m.layout[5].paddr, 0x1_0000);
    assert_eq!(m.vm.vcpu.regs().rip, 0x40_0000);
    assert_eq!(m.vm.upcalls.find_upcall(7).unwrap().ptr(), Some(0x40_0100));
    assert_eq!(m.vm.hypercalls.try_execute(10, Transport::new(2, 0)), Ok(Transport::new(4, 1)));

    // metadata that does not convert fails linking first
    let r: Result<Module<Call>, RuntimeError> = Module::new(
        cfg,
        LinkerConfigBuilder::new().build(),
        bundle(vec![], vec![], vec![]),
        vec![Err(ConversionError::ParseError)],
        regs(),
        sregs(),
        0x7F00_0000_0000,
        0x7F10_0020_0000,
        0x1_0000,
    );
    assert!(matches!(r, Err(RuntimeError::Linker(LinkError::ParseError(ConversionError::ParseError)))));

    // an expected upcall the guest declares but has no address for
    let declared = FnCall { sig: 7, name: "cb".to_string(), debug_param_types: vec![], debug_return_type: None };
    let r: Result<Module<Call>, RuntimeError> = Module::new(
        cfg,
        LinkerConfigBuilder::new().register_guest_function(upcall::Function::new("cb", 7, vec![], None)).build(),
        bundle(vec![declared], vec![], vec![]),
        vec![],
        regs(),
        sregs(),
        0x7F00_0000_0000,
        0x7F10_0020_0000,
        0x1_0000,
    );
    assert!(matches!(r, Err(RuntimeError::Linker(LinkError::MissingUpcallImpl { .. }))));

    // a layout the page tables cannot map
    let r: Result<Module<Call>, RuntimeError> = Module::new(
        cfg,
        LinkerConfigBuilder::new().build(),
        bundle(vec![], vec![], vec![]),
        vec![],
        regs(),
        sregs(),
        0x7F00_0000_0000,
        0x7F10_0020_0000,
        0xF_FFFF_FFFF_F000,
    );
    assert!(matches!(r, Err(RuntimeError::Vm(VmError::LayoutUnmappable))));
}

#[test]
fn shared_regions_have_their_own_sizes() {
    let cfg = ConfigBuilder::new().stack_size(0x4000).build();
    let mut vm: Vm<Call> = Vm::new(Config { shared_guest: 0x2000, shared_host: 0x1000, ..cfg }, regs(), sregs());
    let mut exec = bundle(vec![], vec![], vec![]);
    vm.load_exec(&mut exec, 0x7F00_0000_0000, 0x7F10_0020_0000, 0x1_0000).unwrap();
    assert_eq!(exec.layout[2].len, 2);
    assert_eq!(exec.layout[3].len, 1);
}

#[test]
fn sizes_fit_below_the_system_region() {
    let cfg = Config::default();
    assert!(check_sizes(&cfg, 0x7F00_0000_0000, 0x7F10_0020_0000));
    // larger than 1 TiB is fine as long as it fits
    let big = Config { stack_size: 0x200_0000_0000, ..cfg };
    assert!(check_sizes(&big, 0x7F00_0000_0000, 0x7F10_0020_0000));
    // a stack that fills all memory below the system region leaves no room
    let full = Config { stack_size: 0x7FFF_FFFF_F000, ..cfg };
    assert!(!check_sizes(&full, 0x7F00_0000_0000, 0x7F10_0020_0000));
    // shared memory that would land at address 0 once aligned to 1 GiB
    let low = Config { stack_size: 0x7FFF_C000_0000, shared_guest: 0x1000, ..cfg };
    assert!(!check_sizes(&low, 0x4000_0000, 0x1000));
    // sizes that are no whole pages
    assert!(!check_sizes(&Config { shared_host: 0x1001, ..cfg }, 0x1000, 0x1000));
}

#[test]
fn loading_maps_the_executable_and_points_the_cpu_at_its_tables() {
    let cfg = ConfigBuilder::new().stack_size(0x4000).build();
    let mut vm: Vm<Call> = Vm::new(Config { shared_guest: 0x2000, shared_host: 0x2000, ..cfg }, regs(), sregs());
    let mut exec = bundle(vec![], vec![], vec![]);
    let mut code = ProtoRegion::<ReadWrite>::new(0x1000);
    code.write_offset(0, &[0xF4]).unwrap();
    exec.mem_regions.push(code.set_guest_addr(0x40_0000).into_entry());
    vm.load_exec(&mut exec, 0x7F00_0000_0000, 0x7F10_0020_0000, 0x1_0000).unwrap();
    assert_eq!(exec.mem_regions.len(), 0);
    // the executable's region comes last, with its contents
    let last = &vm.mem_mappings.as_slice()[vm.mem_mappings.len() - 1];
    assert_eq!(last.0, 0x40_0000);
    assert_eq!(last.2.as_ref().unwrap()[0], 0xF4);
    assert_eq!(vm.dump_region(0x40_0000).unwrap()[0], 0xF4);
    // the system region comes fourth
    assert_eq!(vm.mem_mappings.as_slice()[3].0, 0x8000_0000_0000);
    // the CPU gets the GDT and the IDT of the system region
    let s = vm.vcpu.sregs();
    assert_eq!((s.gdt.base, s.gdt.limit), (0x8000_0000_0000, 23));
    assert_eq!((s.idt.base, s.idt.limit), (0x8000_0000_1000, 0));
    assert_eq!(s.cs.selector, 8);
    assert_eq!(s.ds.selector, 16);
}
