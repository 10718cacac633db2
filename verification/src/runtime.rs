//! Assembling a module: which configurations a guest VM and its linker get,
//! where the guest executable comes from, and linking and loading it.
use vstd::prelude::*;
use crate::elf::{Buffer, LoadError};
use crate::linker::config::Config as LinkerConfig;
use crate::linker::linker::LinkError;
use crate::vm::config::{Config as VmConfig, default_config};
use crate::vm::run::{State, VmError};
use crate::elf::ExecBundle;
use crate::linker::{CallDirection, CallView, UpcallPtr, hypercall};
use crate::linker::linker::{ConversionError, joined_result};
use crate::linker::linking::{
    Linker, converted, first_error, hypercall_views, linked_upcalls, missing_upcalls,
    upcall_views, validation_errors,
};
use crate::linker::validate::calls_view;
use crate::mem::{LAYOUT_TABLE_ENTRIES, LayoutTableEntry, spec_as_virt_addr};
use crate::paging::separated;
use crate::vm::layout::{GUEST_PAGING_ADDR, GUEST_STACK_ADDR, GUEST_SYSTEM_ADDR, align_by_ref_spec, shared_entry, stack_entry};
use crate::vm::vcpu::{Regs, SRegs};
use crate::vm::vm::{
    Vm, holds_loaded, layout_table_entry, load_failure, long_mode_sregs, mappable, sizes_fit,
    start_regs, sys_entry,
};

verus! {

/// Errors of building and using a module.
#[derive(Debug)]
pub enum RuntimeError {
    /// Neither a path nor a buffer was given.
    MissingExecutable,
    /// An upcall failed.
    Upcall(VmError),
    /// Linking failed.
    Linker(LinkError),
    /// The VM failed.
    Vm(VmError),
    /// The executable could not be loaded.
    Elf(LoadError),
}

/// Where the guest executable comes from.
#[derive(Debug, Clone, Copy)]
pub enum Source<'a> {
    /// A file at this path.
    Path(&'a str),
    /// These bytes.
    Buffer(&'a Buffer),
}

/// What a module is built from: the configurations of its VM and its
/// linker, and its executable.
#[derive(Debug)]
pub struct ModuleParts<'a> {
    pub vm: VmConfig,
    pub linker: LinkerConfig,
    pub source: Source<'a>,
}

/// Builds a module from configurations and an executable.
#[derive(Debug)]
pub struct ModuleBuilder<'a> {
    pub vm: VmConfig,
    pub linker: LinkerConfig,
    pub path: Option<&'a str>,
    pub buffer: Option<&'a Buffer>,
}

impl<'a> ModuleBuilder<'a> {
    /// Default configurations and no executable.
    pub fn new() -> (r: ModuleBuilder<'a>)
        ensures
            r.vm == default_config(),
            !r.linker.error_unused_host,
            !r.linker.error_unused_guest,
            r.linker.upcalls@.len() == 0,
            r.path is None,
            r.buffer is None,
    {
        ModuleBuilder { vm: VmConfig::default(), linker: LinkerConfig::default(), path: None, buffer: None }
    }

    /// Use the VM configuration `config`.
    pub fn configure_vm(self, config: VmConfig) -> (r: ModuleBuilder<'a>)
        ensures
            r == (ModuleBuilder { vm: config, ..self }),
    {
        ModuleBuilder { vm: config, ..self }
    }

    /// Use the linker configuration `config`.
    pub fn configure_linker(self, config: LinkerConfig) -> (r: ModuleBuilder<'a>)
        ensures
            r == (ModuleBuilder { linker: config, ..self }),
    {
        ModuleBuilder { linker: config, ..self }
    }

    /// Load the executable from a path; any buffer given before is ignored.
    pub fn with_path(self, path: &'a str) -> (r: ModuleBuilder<'a>)
        ensures
            r == (ModuleBuilder { path: Some(path), buffer: None, ..self }),
    {
        ModuleBuilder { path: Some(path), buffer: None, ..self }
    }

    /// Load the executable from a buffer; any path given before is ignored.
    pub fn with_buffer(self, buffer: &'a Buffer) -> (r: ModuleBuilder<'a>)
        ensures
            r == (ModuleBuilder { buffer: Some(buffer), path: None, ..self }),
    {
        ModuleBuilder { buffer: Some(buffer), path: None, ..self }
    }

    /// The parts of the module: fails without an executable; a buffer comes
    /// before a path.
    pub fn build(self) -> (r: Result<ModuleParts<'a>, RuntimeError>)
        ensures
            self.path is None && self.buffer is None ==> r matches Err(
                RuntimeError::MissingExecutable,
            ),
            self.buffer matches Some(b) ==> (r matches Ok(p) && p.vm == self.vm && p.linker
                == self.linker && p.source == Source::Buffer(b)),
            self.buffer is None && self.path is Some ==> (r matches Ok(p) && p.vm == self.vm
                && p.linker == self.linker && p.source == Source::Path(self.path->0)),
    {
        match self.buffer {
            Some(buf) => Ok(ModuleParts { vm: self.vm, linker: self.linker, source: Source::Buffer(buf) }),
            None => match self.path {
                Some(path) => Ok(ModuleParts { vm: self.vm, linker: self.linker, source: Source::Path(path) }),
                None => Err(RuntimeError::MissingExecutable),
            },
        }
    }
}

/// Linking a guest's functions succeeds: the metadata of every host function
/// in `parsed` converts, the hypercalls the guest expects (`host`) and the
/// upcalls the host expects of the functions the guest exposes (`expose`)
/// validate, and the guest has an address (`ptrs`) for every expected upcall.
pub open spec fn links<C>(
    cfg: LinkerConfig,
    parsed: Seq<Result<hypercall::Function<C>, ConversionError>>,
    host: Seq<CallView>,
    expose: Seq<CallView>,
    ptrs: Seq<UpcallPtr>,
) -> bool {
    let ups = upcall_views(cfg.upcalls@);
    &&& first_error(parsed) is None
    &&& validation_errors(
        hypercall_views(converted(parsed)),
        host,
        CallDirection::GuestToHost,
        cfg.error_unused_host,
    ).len() == 0
    &&& validation_errors(ups, expose, CallDirection::HostToGuest, cfg.error_unused_guest).len() == 0
    &&& missing_upcalls(ups, ptrs).len() == 0
}

/// `e` is the error linking fails with: the first metadata that does not
/// convert, else the validation errors of the hypercalls, else those of the
/// upcalls, else the upcalls without an address; one error as itself,
/// several joined.
pub open spec fn link_error<C>(
    e: LinkError,
    cfg: LinkerConfig,
    parsed: Seq<Result<hypercall::Function<C>, ConversionError>>,
    host: Seq<CallView>,
    expose: Seq<CallView>,
    ptrs: Seq<UpcallPtr>,
) -> bool {
    let ups = upcall_views(cfg.upcalls@);
    let hx = validation_errors(
        hypercall_views(converted(parsed)),
        host,
        CallDirection::GuestToHost,
        cfg.error_unused_host,
    );
    let ux = validation_errors(ups, expose, CallDirection::HostToGuest, cfg.error_unused_guest);
    let r = Err::<(), LinkError>(e);
    match first_error(parsed) {
        Some(pe) => e == LinkError::ParseError(pe),
        None => if hx.len() > 0 {
            joined_result(r, (), hx)
        } else if ux.len() > 0 {
            joined_result(r, (), ux)
        } else {
            joined_result(r, (), missing_upcalls(ups, ptrs))
        },
    }
}

/// The memory layout of a loaded guest whose executable has the layout
/// `layout`: its stack, the shared memory owned by the guest and that owned
/// by the host (aligned like the host memory at `guest_host_addr` and
/// `host_host_addr`), the system region and the memory layout table at
/// `table_addr` follow the executable's own regions.
pub open spec fn loaded_layout(
    cfg: VmConfig,
    layout: Seq<LayoutTableEntry>,
    guest_host_addr: u64,
    host_host_addr: u64,
    table_addr: u64,
) -> Seq<LayoutTableEntry> {
    let stack = stack_entry(cfg.stack_size, GUEST_STACK_ADDR);
    let pages = (cfg.shared_guest / 4096) as u32;
    let guest_shared = align_by_ref_spec(
        (stack.paddr - cfg.shared_guest) as u64,
        guest_host_addr,
    ) as u64;
    let host_shared = align_by_ref_spec((guest_shared - cfg.shared_host) as u64, host_host_addr) as u64;
    let host_pages = (cfg.shared_host / 4096) as u32;
    layout.push(stack).push(shared_entry(guest_shared, guest_host_addr, pages, true)).push(
        shared_entry(host_shared, host_host_addr, host_pages, false),
    ).push(sys_entry(GUEST_SYSTEM_ADDR)).push(layout_table_entry(table_addr))
}

/// A loaded guest executable whose functions are linked: the guest VM,
/// ready to run its setup, and the memory layout the guest is told of.
pub struct Module<C> {
    pub vm: Vm<C>,
    pub layout: Vec<LayoutTableEntry>,
}

impl<C> Module<C> {
    /// Link the functions of the executable `bundle` with the host functions
    /// `hypercalls` (each as its metadata converted), then load it into a VM
    /// with configuration `cfg` whose CPU starts with the registers `regs`
    /// and `sregs` (see `Vm::load_exec`), and hand the linked functions to
    /// the VM.
    ///
    /// Fails with the linking error where linking fails (see `link_error`),
    /// else with the loading error where the final layout cannot be mapped
    /// or has overlapping regions.
    pub fn new(
        cfg: VmConfig,
        linker: LinkerConfig,
        bundle: ExecBundle,
        hypercalls: Vec<Result<hypercall::Function<C>, ConversionError>>,
        regs: Regs,
        sregs: SRegs,
        shared_guest_host_addr: u64,
        shared_host_host_addr: u64,
        layout_table_addr: u64,
    ) -> (r: Result<Module<C>, RuntimeError>)
        requires
            sizes_fit(cfg, shared_guest_host_addr, shared_host_host_addr),
            bundle.mem_regions.wf(),
            layout_table_addr % 4096 == 0,
            layout_table_addr + 4096 <= u64::MAX,
            bundle.layout@.len() + 5 <= LAYOUT_TABLE_ENTRIES,
        ensures
            ({
                let host = calls_view(bundle.host@);
                let expose = calls_view(bundle.expose@);
                let entries = loaded_layout(
                    cfg,
                    bundle.layout@,
                    shared_guest_host_addr,
                    shared_host_host_addr,
                    layout_table_addr,
                );
                &&& !links(linker, hypercalls@, host, expose, bundle.upcalls@) ==> (r matches Err(
                    RuntimeError::Linker(e),
                ) && link_error(e, linker, hypercalls@, host, expose, bundle.upcalls@))
                &&& links(linker, hypercalls@, host, expose, bundle.upcalls@) ==> {
                    &&& mappable(entries, GUEST_PAGING_ADDR) && separated(entries) ==> r is Ok
                    &&& (r matches Err(e) ==> (e matches RuntimeError::Vm(ve) && load_failure(
                        ve,
                        entries,
                    )))
                }
                &&& r matches Ok(m) ==> {
                    &&& m.vm.cfg == cfg
                    &&& m.layout@ == entries
                    &&& holds_loaded(
                        m.vm.mem_mappings@,
                        0,
                        cfg,
                        shared_guest_host_addr,
                        shared_host_host_addr,
                        layout_table_addr,
                        entries,
                        m.vm.paging_size,
                        bundle.mem_regions@,
                    )
                    &&& m.vm.state == State::PreSetup
                    &&& m.vm.hypercalls@.to_multiset() == converted(hypercalls@).to_multiset()
                    &&& linked_upcalls(linker.upcalls@, m.vm.upcalls@, bundle.upcalls@)
                    &&& forall|i: int| 0 <= i < m.vm.upcalls@.len() ==> (#[trigger] m.vm.upcalls@[i]).ptr is Some
                    &&& m.vm.vcpu.spec_regs().value() == start_regs(
                        regs,
                        spec_as_virt_addr(bundle.entry),
                        cfg.debug,
                    )
                    &&& m.vm.vcpu.spec_sregs().value() == long_mode_sregs(sregs)
                }
            }),
    {
        let mut linking: Linker<C> = match Linker::new(linker) {
            Ok(l) => l,
            Err(e) => {
                return Err(RuntimeError::Linker(e));
            },
        };
        match linking.link(hypercalls, &bundle) {
            Ok(()) => {},
            Err(e) => {
                return Err(RuntimeError::Linker(e));
            },
        }
        proof {
            crate::linker::linking::law_linked_upcalls_have_addresses(
                linker,
                linking.cfg,
                calls_view(bundle.expose@),
                bundle.upcalls@,
            );
        }
        let mut vm: Vm<C> = Vm::new(cfg, regs, sregs);
        let mut bundle = bundle;
        let ghost before = bundle.layout@;
        match vm.load_exec(&mut bundle, shared_guest_host_addr, shared_host_host_addr, layout_table_addr) {
            Ok(()) => {},
            Err(e) => {
                assert(bundle.layout@ =~= loaded_layout(
                    cfg,
                    before,
                    shared_guest_host_addr,
                    shared_host_host_addr,
                    layout_table_addr,
                ));
                return Err(RuntimeError::Vm(e));
            },
        }
        let (upcalls, functions) = linking.into_calls();
        vm.link(functions, upcalls);
        assert(bundle.layout@ =~= loaded_layout(
            cfg,
            before,
            shared_guest_host_addr,
            shared_host_host_addr,
            layout_table_addr,
        ));
        Ok(Module { vm, layout: bundle.layout })
    }
}

} // verus!
