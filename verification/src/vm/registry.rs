//! The functions a running guest can reach: hypercalls by signature, found
//! by binary search, and upcalls by signature.
use vstd::prelude::*;
use crate::linker::{hypercall, upcall};
use crate::vmi::{ExitCode, Transport};

verus! {

/// Errors of calls between a running guest and the host.
#[derive(Debug, Clone, Copy, PartialEq, Eq, Structural)]
pub enum RegistryError {
    /// The guest called a function with an unknown signature.
    UnknownFunction(u64),
    /// The upcall with this signature is not linked to a guest address.
    UnlikedUpcall(u64),
    /// The hypercall failed with this code.
    HypercallExec(ExitCode),
    /// The arguments could not be passed to the guest.
    UpcallParam,
    /// The upcall failed with this code.
    UpcallExec(ExitCode),
}

/// The signatures of `s` are in ascending order.
pub open spec fn sorted_sigs<C>(s: Seq<hypercall::Function<C>>) -> bool {
    forall|i: int, j: int| 0 <= i <= j < s.len() ==> s[i].func.sig <= s[j].func.sig
}

/// Some function of `s` has signature `sig`.
pub open spec fn has_sig<C>(s: Seq<hypercall::Function<C>>, sig: u64) -> bool {
    exists|i: int| 0 <= i < s.len() && (#[trigger] s[i]).func.sig == sig
}

/// The host functions the guest may call, sorted by signature.
pub struct Hypercalls<C> {
    inner: Vec<hypercall::Function<C>>,
}

impl<C> Hypercalls<C> {
    #[verifier::type_invariant]
    spec fn sorted(self) -> bool {
        sorted_sigs(self.inner@)
    }

    /// The functions, sorted by signature.
    pub closed spec fn view(&self) -> Seq<hypercall::Function<C>> {
        self.inner@
    }

    /// No functions.
    pub fn default() -> (r: Hypercalls<C>)
        ensures
            r@.len() == 0,
    {
        Hypercalls { inner: Vec::new() }
    }

    /// The functions `functions`, sorted by signature; functions of equal
    /// signature keep their order.
    pub fn from(functions: Vec<hypercall::Function<C>>) -> (r: Hypercalls<C>)
        ensures
            sorted_sigs(r@),
            r@.to_multiset() == functions@.to_multiset(),
    {
        broadcast use vstd::seq_lib::group_to_multiset_ensures;

        let ghost orig = functions@;
        let mut rest = functions;
        let mut out: Vec<hypercall::Function<C>> = Vec::new();
        let ghost mut taken: int = 0;
        while rest.len() > 0
            invariant
                0 <= taken <= orig.len(),
                rest@ == orig.skip(taken),
                sorted_sigs(out@),
                out@.to_multiset() == orig.take(taken).to_multiset(),
            decreases rest@.len(),
        {
            let x = rest.remove(0);
            assert(x == orig[taken]);
            let mut pos: usize = 0;
            while pos < out.len() && out[pos].func.sig <= x.func.sig
                invariant
                    0 <= pos <= out@.len(),
                    forall|k: int| 0 <= k < pos ==> out@[k].func.sig <= x.func.sig,
                decreases out@.len() - pos,
            {
                pos = pos + 1;
            }
            let ghost prev = out@;
            out.insert(pos, x);
            proof {
                vstd::seq_lib::to_multiset_insert(prev, pos as int, x);
                vstd::seq_lib::to_multiset_build(orig.take(taken), x);
                assert(orig.take(taken + 1) =~= orig.take(taken).push(x));
                assert(rest@ =~= orig.skip(taken + 1));
                taken = taken + 1;
            }
        }
        assert(orig.take(taken) =~= orig);
        Hypercalls { inner: out }
    }

    /// The index of a function with signature `sig`, by binary search.
    fn find(&self, sig: u64) -> (r: Option<usize>)
        ensures
            r is None <==> !has_sig(self@, sig),
            r matches Some(i) ==> i < self@.len() && self@[i as int].func.sig == sig,
    {
        proof {
            use_type_invariant(self);
        }
        let mut lo: usize = 0;
        let mut hi: usize = self.inner.len();
        while lo < hi
            invariant
                0 <= lo <= hi <= self@.len(),
                sorted_sigs(self@),
                forall|k: int| 0 <= k < lo ==> self@[k].func.sig < sig,
                forall|k: int| hi <= k < self@.len() ==> self@[k].func.sig > sig,
            decreases hi - lo,
        {
            let mid = lo + (hi - lo) / 2;
            let s = self.inner[mid].func.sig;
            if s == sig {
                return Some(mid);
            } else if s < sig {
                lo = mid + 1;
            } else {
                hi = mid;
            }
        }
        None
    }

    /// Call the function with signature `sig` on `transport`; an unknown
    /// signature and a failing call are errors.
    pub fn try_execute(&self, sig: u64, transport: Transport) -> (r: Result<Transport, RegistryError>)
        where
            C: Fn(Transport) -> Result<Transport, ExitCode>,
        requires
            forall|i: int, t: Transport| 0 <= i < self@.len() ==> #[trigger] call_requires(self@[i].call, (t,)),
        ensures
            !has_sig(self@, sig) ==> r == Err::<Transport, RegistryError>(
                RegistryError::UnknownFunction(sig),
            ),
            has_sig(self@, sig) ==> exists|i: int, out: Result<Transport, ExitCode>|
                0 <= i < self@.len() && self@[i].func.sig == sig && #[trigger] call_ensures(
                    self@[i].call,
                    (transport,),
                    out,
                ) && r == match out {
                    Ok(t) => Ok::<Transport, RegistryError>(t),
                    Err(c) => Err(RegistryError::HypercallExec(c)),
                },
    {
        let idx = match self.find(sig) {
            Some(idx) => idx,
            None => {
                return Err(RegistryError::UnknownFunction(sig));
            },
        };
        let func = &self.inner[idx].call;
        let output = func(transport);
        match output {
            Ok(t) => Ok(t),
            Err(c) => Err(RegistryError::HypercallExec(c)),
        }
    }
}

/// The index of the last function of `s` with signature `sig`, or -1.
pub open spec fn last_upcall(s: Seq<upcall::Function>, sig: u64) -> int
    decreases s.len(),
{
    if s.len() == 0 {
        -1
    } else if s.last().base.sig == sig {
        s.len() - 1
    } else {
        last_upcall(s.drop_last(), sig)
    }
}

proof fn lemma_last_upcall(s: Seq<upcall::Function>, sig: u64)
    ensures
        -1 <= last_upcall(s, sig) < s.len(),
        last_upcall(s, sig) >= 0 ==> s[last_upcall(s, sig)].base.sig == sig,
    decreases s.len(),
{
    if s.len() > 0 {
        lemma_last_upcall(s.drop_last(), sig);
    }
}

/// The guest functions the host may call, by signature; of several with one
/// signature the last counts.
pub struct Upcalls {
    inner: Vec<upcall::Function>,
}

impl Upcalls {
    /// The functions, in the order they were given.
    pub closed spec fn view(&self) -> Seq<upcall::Function> {
        self.inner@
    }

    /// No functions.
    pub fn default() -> (r: Upcalls)
        ensures
            r@.len() == 0,
    {
        Upcalls { inner: Vec::new() }
    }

    /// The functions `functions`.
    pub fn from(functions: Vec<upcall::Function>) -> (r: Upcalls)
        ensures
            r@ == functions@,
    {
        Upcalls { inner: functions }
    }

    /// The function with signature `sig`, which must be linked to a guest
    /// address.
    pub fn find_upcall(&self, sig: u64) -> (r: Result<&upcall::Function, RegistryError>)
        ensures
            last_upcall(self@, sig) < 0 ==> r == Err::<&upcall::Function, RegistryError>(
                RegistryError::UnknownFunction(sig),
            ),
            last_upcall(self@, sig) >= 0 && self@[last_upcall(self@, sig)].ptr is None ==> r
                == Err::<&upcall::Function, RegistryError>(RegistryError::UnlikedUpcall(sig)),
            last_upcall(self@, sig) >= 0 && self@[last_upcall(self@, sig)].ptr is Some ==> (r matches Ok(
                f,
            ) && *f == self@[last_upcall(self@, sig)]),
    {
        proof {
            lemma_last_upcall(self@, sig);
        }
        let mut i: usize = self.inner.len();
        assert(self@.take(i as int) =~= self@);
        while i > 0
            invariant
                0 <= i <= self@.len(),
                last_upcall(self@, sig) == last_upcall(self@.take(i as int), sig),
            decreases i,
        {
            assert(self@.take(i as int).drop_last() =~= self@.take(i - 1));
            if self.inner[i - 1].base.sig == sig {
                let func = &self.inner[i - 1];
                if func.ptr().is_none() {
                    return Err(RegistryError::UnlikedUpcall(sig));
                }
                return Ok(func);
            }
            i = i - 1;
        }
        Err(RegistryError::UnknownFunction(sig))
    }
}

} // verus!
