//! The decisions of the run loop: what each exit of the guest leads to,
//! and how hypercalls and upcalls pass through the guest's registers.
use vstd::prelude::*;
use crate::linker::{hypercall, upcall};
use crate::memory::region::RegionError;
use crate::paging::PagingError;
use crate::vm::registry::{Hypercalls, RegistryError, Upcalls, has_sig, last_upcall};
use crate::vm::vcpu::Regs;
use crate::vmi::{ExitCode, Transport};

verus! {

/// The execution state of a guest.
#[derive(Debug, Clone, Copy, PartialEq, Eq, Structural)]
pub enum State {
    PreSetup,
    Ready,
    Executing,
    UpcallExec,
    HypercallExec,
    Shutdown,
}

/// Why the virtual CPU stopped.
#[derive(Debug, Clone, Copy, PartialEq, Eq, Structural)]
pub enum VmExit {
    /// The guest wrote to an I/O port.
    IoOut(u16),
    /// The guest halted with this exit code.
    Hlt(ExitCode),
    /// The guest stopped after a single step.
    Debug,
    /// Any other reason.
    Other,
}

/// Errors of running a guest that the library decides.
#[derive(Debug)]
pub enum VmError {
    /// Building the page tables failed.
    Paging(PagingError),
    /// No region holds the address.
    VmMemoryMappingNotFound(u64),
    /// The region holding the address cannot be read.
    VmMemoryMappingNotReadable(u64),
    /// A hypercall failed.
    HypercallError(RegistryError),
    /// An upcall could not be prepared.
    UpcallInitError(RegistryError),
    /// The result of an upcall could not be read.
    UpcallReturnError(ExitCode),
    /// The guest returned from an upcall that the host did not make.
    UnexpectedUpcallReturn,
    /// A region could not be written.
    Region(RegionError),
    /// The guest halted with an exit code the host does not handle.
    UnhandledHalt(ExitCode),
    /// The guest stopped for a reason the host does not handle.
    UnexpectedExit,
    /// The memory layout cannot be mapped by the page tables.
    LayoutUnmappable,
}

/// What the run loop does after an exit of the guest.
#[derive(Debug)]
pub enum Action {
    /// Execute the hypercall the guest requested, then run on.
    Hypercall,
    /// Report a write to an unexpected port, then run on.
    IgnoreIo(u16),
    /// Report the registers, then run on.
    Debug,
    /// Stop running; first dump the region at the address, where there is one.
    Finish(Option<u64>),
    /// Report the registers and dump the region at address 0x1000, then
    /// fail with `UnexpectedExit`.
    Unexpected,
    /// Stop running with this error.
    Fail(VmError),
}

/// The region to dump after the guest halted with `code`: the memory
/// layout table at address 0 for the codes that say it is broken.
pub open spec fn dump_for(code: ExitCode) -> Option<u64> {
    match code {
        ExitCode::InvalidMemoryLayoutTableTooSmall => Some(0),
        ExitCode::InvalidMemoryLayoutTableMisaligned => Some(0),
        ExitCode::InvalidMemoryLayout => Some(0),
        _ => None,
    }
}

/// The region to dump after the guest halted with `code`.
pub fn react_to_exit_code(code: ExitCode) -> (r: Option<u64>)
    ensures
        r == dump_for(code),
{
    match code {
        ExitCode::InvalidMemoryLayoutTableTooSmall => Some(0x0),
        ExitCode::InvalidMemoryLayoutTableMisaligned => Some(0x0),
        ExitCode::InvalidMemoryLayout => Some(0x0),
        _ => None,
    }
}

/// Start running a guest in state `state`: it is executing now, and a
/// return from an upcall is expected if the host had prepared one.
pub fn start_run(state: State) -> (r: (State, bool))
    ensures
        r.0 == State::Executing,
        r.1 == (state == State::UpcallExec),
{
    let pending = match state {
        State::UpcallExec => true,
        _ => false,
    };
    (State::Executing, pending)
}

/// What follows an exit of a guest in state `state`. `upcall_pending` says
/// whether the host prepared an upcall before the run; `hypercall_port` is
/// the I/O port through which the guest calls the host.
///
/// A write to the hypercall port executes a hypercall; other writes are
/// reported and ignored; single steps report the registers. A halt ends the
/// run: a normal exit shuts the guest down, a ready guest is ready, and a
/// return from an upcall ends the upcall, leaving the guest ready for the
/// next call. A return is accepted exactly in a run that was started after
/// the host prepared an upcall (`upcall_pending`, as `start_run` reports it
/// before the state becomes `Executing`); in any other run it fails with
/// `UnexpectedUpcallReturn`. Other halts and other exits fail.
pub open spec fn on_exit_spec(state: State, upcall_pending: bool, exit: VmExit, hypercall_port: u16) -> (
    State,
    Action,
) {
    match exit {
        VmExit::IoOut(port) => if port == hypercall_port {
            (state, Action::Hypercall)
        } else {
            (state, Action::IgnoreIo(port))
        },
        VmExit::Hlt(code) => match code {
            ExitCode::Normal => (State::Shutdown, Action::Finish(dump_for(code))),
            ExitCode::Ready => (State::Ready, Action::Finish(dump_for(code))),
            ExitCode::Return => if upcall_pending {
                (State::Ready, Action::Finish(dump_for(code)))
            } else {
                (state, Action::Fail(VmError::UnexpectedUpcallReturn))
            },
            _ => (state, Action::Fail(VmError::UnhandledHalt(code))),
        },
        VmExit::Debug => (state, Action::Debug),
        VmExit::Other => (state, Action::Unexpected),
    }
}

/// What follows an exit of a guest (see `on_exit_spec`).
pub fn on_exit(state: State, upcall_pending: bool, exit: VmExit, hypercall_port: u16) -> (r: (
    State,
    Action,
))
    ensures
        r == on_exit_spec(state, upcall_pending, exit, hypercall_port),
{
    match exit {
        VmExit::IoOut(port) => {
            if port == hypercall_port {
                (state, Action::Hypercall)
            } else {
                (state, Action::IgnoreIo(port))
            }
        },
        VmExit::Hlt(code) => {
            let next = match code {
                ExitCode::Normal => State::Shutdown,
                ExitCode::Ready => State::Ready,
                ExitCode::Return => {
                    if !upcall_pending {
                        return (state, Action::Fail(VmError::UnexpectedUpcallReturn));
                    }
                    State::Ready
                },
                _ => {
                    return (state, Action::Fail(VmError::UnhandledHalt(code)));
                },
            };
            (next, Action::Finish(react_to_exit_code(code)))
        },
        VmExit::Debug => (state, Action::Debug),
        VmExit::Other => (state, Action::Unexpected),
    }
}

/// An I/O write of the guest is decided by its port alone: whatever the
/// state and whether an upcall is pending, a write to the hypercall port
/// executes a hypercall, one to any other port is reported and ignored, and
/// neither changes the state.
pub proof fn law_io_exit_depends_on_port(
    state: State,
    upcall_pending: bool,
    other_state: State,
    other_pending: bool,
    port: u16,
    hypercall_port: u16,
)
    ensures
        ({
            let (st, act) = on_exit_spec(state, upcall_pending, VmExit::IoOut(port), hypercall_port);
            let (st2, act2) = on_exit_spec(
                other_state,
                other_pending,
                VmExit::IoOut(port),
                hypercall_port,
            );
            &&& st == state
            &&& act == act2
            &&& port == hypercall_port ==> act == Action::Hypercall
            &&& port != hypercall_port ==> act == Action::IgnoreIo(port)
        }),
{
}

/// A guest may return from an upcall only in a run that started after the
/// host prepared one (a run started in state `before`, see `start_run`):
/// then the run ends with the upcall done and the guest ready, so that a
/// return in the next run, with no upcall prepared in between, fails with
/// `UnexpectedUpcallReturn`; without a prepared upcall the return fails
/// right away.
pub proof fn law_upcall_return_needs_upcall(before: State, hypercall_port: u16)
    ensures
        ({
            let ret = VmExit::Hlt(ExitCode::Return);
            let (st, act) = on_exit_spec(
                State::Executing,
                before == State::UpcallExec,
                ret,
                hypercall_port,
            );
            let (st2, act2) = on_exit_spec(
                State::Executing,
                st == State::UpcallExec,
                ret,
                hypercall_port,
            );
            &&& before == State::UpcallExec ==> {
                &&& st == State::Ready
                &&& act == Action::Finish(None)
                &&& act2 == Action::Fail(VmError::UnexpectedUpcallReturn)
            }
            &&& before != State::UpcallExec ==> act == Action::Fail(VmError::UnexpectedUpcallReturn)
        }),
{
}

/// What executing the hypercall that the registers `regs0` request does,
/// with the host functions `hcs`, in state `st0`: an unknown signature (in
/// `rbx`) fails and leaves the state `HypercallExec`; otherwise a function
/// with that signature is called on the arguments in `r8` and `r9`, and its
/// result replaces them and the state returns to `st0`, or its failure
/// leaves the registers and the state `HypercallExec`.
pub open spec fn hypercall_done<C>(
    hcs: Seq<hypercall::Function<C>>,
    st0: State,
    regs0: Regs,
    st1: State,
    regs1: Regs,
    r: Result<(), VmError>,
) -> bool where C: Fn(Transport) -> Result<Transport, ExitCode> {
    &&& !has_sig(hcs, regs0.rbx) ==> {
        &&& r matches Err(VmError::HypercallError(e)) && e == RegistryError::UnknownFunction(
            regs0.rbx,
        )
        &&& st1 == State::HypercallExec
        &&& regs1 == regs0
    }
    &&& has_sig(hcs, regs0.rbx) ==> exists|i: int, out: Result<Transport, ExitCode>|
        0 <= i < hcs.len() && hcs[i].func.sig == regs0.rbx && #[trigger] call_ensures(
            hcs[i].call,
            (Transport { primary: regs0.r8, secondary: regs0.r9 },),
            out,
        ) && match out {
            Ok(t) => r is Ok && regs1 == (Regs { r8: t.primary, r9: t.secondary, ..regs0 }) && st1
                == st0,
            Err(c) => r matches Err(VmError::HypercallError(RegistryError::HypercallExec(e))) && e
                == c && regs1 == regs0 && st1 == State::HypercallExec,
        }
}

/// Execute the hypercall the guest requested in `regs`: the signature in
/// `rbx`, the arguments in `r8` and `r9`. On success the result replaces
/// `r8` and `r9` and the state returns to what it was; on failure the state
/// stays `HypercallExec` and the registers are unchanged.
pub fn hypercall_exec<C>(state: &mut State, regs: &mut Regs, hypercalls: &Hypercalls<C>) -> (r:
    Result<(), VmError>)
    where
        C: Fn(Transport) -> Result<Transport, ExitCode>,
    requires
        forall|i: int, t: Transport|
            0 <= i < hypercalls@.len() ==> #[trigger] call_requires(hypercalls@[i].call, (t,)),
    ensures
        hypercall_done(hypercalls@, *old(state), *old(regs), *final(state), *final(regs), r),
{
    let prev = *state;
    *state = State::HypercallExec;
    let sig = regs.rbx;
    let transport = Transport { primary: regs.r8, secondary: regs.r9 };
    let res = hypercalls.try_execute(sig, transport);
    let ghost w = choose|i: int, out: Result<Transport, ExitCode>|
        0 <= i < hypercalls@.len() && hypercalls@[i].func.sig == sig && #[trigger] call_ensures(
            hypercalls@[i].call,
            (transport,),
            out,
        ) && res == match out {
            Ok(t) => Ok::<Transport, RegistryError>(t),
            Err(c) => Err(RegistryError::HypercallExec(c)),
        };
    let output = match res {
        Ok(t) => t,
        Err(e) => {
            proof {
                if has_sig(hypercalls@, sig) {
                    assert(call_ensures(hypercalls@[w.0].call, (transport,), w.1));
                }
            }
            return Err(VmError::HypercallError(e));
        },
    };
    regs.r8 = output.primary();
    regs.r9 = output.secondary();
    *state = prev;
    proof {
        if has_sig(hypercalls@, sig) {
            assert(call_ensures(hypercalls@[w.0].call, (transport,), w.1));
        }
    }
    Ok(())
}

/// A hypercall that succeeds returns the guest to the state it was in and
/// changes no register but `r8` and `r9`.
pub proof fn law_hypercall_restores<C>(
    hcs: Seq<hypercall::Function<C>>,
    st0: State,
    regs0: Regs,
    st1: State,
    regs1: Regs,
)
    where
        C: Fn(Transport) -> Result<Transport, ExitCode>,
    requires
        hypercall_done(hcs, st0, regs0, st1, regs1, Ok(())),
    ensures
        st1 == st0,
        regs1.rax == regs0.rax && regs1.rbx == regs0.rbx && regs1.rsp == regs0.rsp && regs1.rip
            == regs0.rip && regs1.rflags == regs0.rflags,
{
    if !has_sig(hcs, regs0.rbx) {
        assert(false);
    }
    let w = choose|i: int, out: Result<Transport, ExitCode>|
        0 <= i < hcs.len() && hcs[i].func.sig == regs0.rbx && #[trigger] call_ensures(
            hcs[i].call,
            (Transport { primary: regs0.r8, secondary: regs0.r9 },),
            out,
        ) && match out {
            Ok(t) => Ok::<(), VmError>(()) is Ok && regs1 == (Regs {
                r8: t.primary,
                r9: t.secondary,
                ..regs0
            }) && st1 == st0,
            Err(c) => Ok::<(), VmError>(()) matches Err(
                VmError::HypercallError(RegistryError::HypercallExec(e)),
            ) && e == c && regs1 == regs0 && st1 == State::HypercallExec,
        };
    assert(w.1 is Ok);
}

/// Prepare the upcall with signature `sig` on the arguments `transport`:
/// the arguments go to `r8` and `r9`, the instruction pointer to the
/// function's guest address, and the guest is executing an upcall.
/// What preparing the upcall with signature `sig` on the arguments
/// `transport` does: an unknown or unlinked signature fails and changes
/// nothing; otherwise the arguments go to `r8` and `r9`, the instruction
/// pointer to the function's guest address, and the guest is executing an
/// upcall.
pub open spec fn upcall_prepared(
    ups: Seq<upcall::Function>,
    sig: u64,
    transport: Transport,
    st0: State,
    regs0: Regs,
    st1: State,
    regs1: Regs,
    r: Result<(), VmError>,
) -> bool {
    &&& last_upcall(ups, sig) < 0 ==> {
        &&& r matches Err(VmError::UpcallInitError(e)) && e == RegistryError::UnknownFunction(sig)
        &&& st1 == st0
        &&& regs1 == regs0
    }
    &&& last_upcall(ups, sig) >= 0 ==> match ups[last_upcall(ups, sig)].ptr {
        None => {
            &&& r matches Err(VmError::UpcallInitError(e)) && e == RegistryError::UnlikedUpcall(sig)
            &&& st1 == st0
            &&& regs1 == regs0
        },
        Some(p) => {
            &&& r is Ok
            &&& st1 == State::UpcallExec
            &&& regs1 == (Regs { r8: transport.primary, r9: transport.secondary, rip: p, ..regs0 })
        },
    }
}

pub fn upcall_exec_setup(
    state: &mut State,
    regs: &mut Regs,
    upcalls: &Upcalls,
    sig: u64,
    transport: Transport,
) -> (r: Result<(), VmError>)
    ensures
        upcall_prepared(upcalls@, sig, transport, *old(state), *old(regs), *final(state), *final(regs), r),
{
    let func: &upcall::Function = match upcalls.find_upcall(sig) {
        Ok(f) => f,
        Err(e) => {
            return Err(VmError::UpcallInitError(e));
        },
    };
    let ptr = match func.ptr() {
        Some(p) => p,
        None => {
            return Err(VmError::UpcallInitError(RegistryError::UnlikedUpcall(sig)));
        },
    };
    regs.r8 = transport.primary();
    regs.r9 = transport.secondary();
    regs.rip = ptr;
    *state = State::UpcallExec;
    Ok(())
}

/// The result the guest left in `r8` and `r9` when it returned from an
/// upcall.
pub fn upcall_result(regs: &Regs) -> (r: Transport)
    ensures
        r.primary == regs.r8,
        r.secondary == regs.r9,
{
    Transport::new(regs.r8, regs.r9)
}

} // verus!
