//! The linker: matches the hypercalls a guest expects with those the host
//! implements, and the upcalls the host expects with those the guest exposes.
use vstd::prelude::*;
use crate::elf::ExecBundle;
use crate::linker::config::Config;
use crate::linker::linker::{
    ConversionError, LinkError, ErrorView, errors_view, expected_errors, joined_result,
};
use crate::linker::validate::{
    ValidationResults, by_name, by_sig, calls_view, collisions, mismatches, unmatched, views,
};
use crate::linker::{CallDirection, CallView, Func, UpcallPtr, hypercall, upcall};

verus! {

/// The errors that validating host functions `host` against guest
/// declarations `guest` yields for calls in `direction`, with unused
/// functions reported when `err` holds.
pub open spec fn validation_errors(
    host: Seq<CallView>,
    guest: Seq<CallView>,
    direction: CallDirection,
    err: bool,
) -> Seq<ErrorView> {
    let hr = by_name(host);
    let gr = by_name(guest);
    expected_errors(
        collisions(by_sig(guest)),
        collisions(by_sig(host)),
        mismatches(gr, hr),
        unmatched(gr, hr),
        unmatched(hr, gr),
        direction,
        err,
    )
}

pub open spec fn hypercall_views<C>(s: Seq<hypercall::Function<C>>) -> Seq<CallView> {
    s.map_values(|h: hypercall::Function<C>| h.func@)
}

pub open spec fn upcall_views(s: Seq<upcall::Function>) -> Seq<CallView> {
    s.map_values(|u: upcall::Function| u.base@)
}

/// The address of the last guest function in `ptrs` with signature `sig`.
pub open spec fn last_ptr(ptrs: Seq<UpcallPtr>, sig: u64) -> Option<u64>
    decreases ptrs.len(),
{
    if ptrs.len() == 0 {
        None
    } else if ptrs.last().sig == sig {
        Some(ptrs.last().func)
    } else {
        last_ptr(ptrs.drop_last(), sig)
    }
}

/// One `MissingUpcallImpl` per expected upcall whose signature no guest
/// function in `ptrs` has, in order.
pub open spec fn missing_upcalls(ups: Seq<CallView>, ptrs: Seq<UpcallPtr>) -> Seq<ErrorView>
    decreases ups.len(),
{
    if ups.len() == 0 {
        seq![]
    } else {
        let prev = missing_upcalls(ups.drop_last(), ptrs);
        if last_ptr(ptrs, ups.last().sig) is None {
            prev.push(ErrorView::MissingUpcallImpl(ups.last()))
        } else {
            prev
        }
    }
}

/// Each expected upcall in `new` is the one in `old`, linked to the address
/// `ptrs` gives for its signature where there is one.
pub open spec fn linked_upcalls(
    old: Seq<upcall::Function>,
    new: Seq<upcall::Function>,
    ptrs: Seq<UpcallPtr>,
) -> bool {
    &&& new.len() == old.len()
    &&& forall|i: int|
        0 <= i < old.len() ==> {
            &&& (#[trigger] new[i]).base == old[i].base
            &&& new[i].ptr == match last_ptr(ptrs, old[i].base.sig) {
                Some(p) => Some(p),
                None => old[i].ptr,
            }
        }
}

/// What linking the upcalls does: when validating the expected upcalls of
/// `old` against the functions `expose` the guest declares yields errors,
/// it returns them and changes nothing; otherwise it links every expected
/// upcall that `ptrs` has an address for, and returns one error per upcall
/// left without one.
pub open spec fn upcalls_linked(
    old: Config,
    new: Config,
    expose: Seq<CallView>,
    ptrs: Seq<UpcallPtr>,
    r: Result<(), LinkError>,
) -> bool {
    let ups = upcall_views(old.upcalls@);
    let ex = validation_errors(ups, expose, CallDirection::HostToGuest, old.error_unused_guest);
    &&& new.error_unused_host == old.error_unused_host
    &&& new.error_unused_guest == old.error_unused_guest
    &&& if ex.len() > 0 {
        joined_result(r, (), ex) && new.upcalls@ == old.upcalls@
    } else {
        linked_upcalls(old.upcalls@, new.upcalls@, ptrs) && joined_result(
            r,
            (),
            missing_upcalls(ups, ptrs),
        )
    }
}

proof fn lemma_no_missing(ups: Seq<CallView>, ptrs: Seq<UpcallPtr>)
    requires
        missing_upcalls(ups, ptrs).len() == 0,
    ensures
        forall|i: int| 0 <= i < ups.len() ==> (#[trigger] last_ptr(ptrs, ups[i].sig)) is Some,
    decreases ups.len(),
{
    if ups.len() > 0 {
        let prev = missing_upcalls(ups.drop_last(), ptrs);
        if last_ptr(ptrs, ups.last().sig) is None {
            assert(missing_upcalls(ups, ptrs).len() == prev.len() + 1);
        }
        lemma_no_missing(ups.drop_last(), ptrs);
        assert forall|i: int| 0 <= i < ups.len() implies (#[trigger] last_ptr(ptrs, ups[i].sig)) is Some by {
            if i < ups.len() - 1 {
                assert(ups.drop_last()[i] == ups[i]);
            }
        }
    }
}

/// When linking the upcalls succeeds, every upcall the host expects is
/// linked to the address of the last guest function with its signature.
pub proof fn law_linked_upcalls_have_addresses(
    old: Config,
    new: Config,
    expose: Seq<CallView>,
    ptrs: Seq<UpcallPtr>,
)
    requires
        upcalls_linked(old, new, expose, ptrs, Ok(())),
    ensures
        new.upcalls@.len() == old.upcalls@.len(),
        forall|i: int|
            0 <= i < new.upcalls@.len() ==> {
                &&& (#[trigger] new.upcalls@[i]).base == old.upcalls@[i].base
                &&& new.upcalls@[i].ptr == last_ptr(ptrs, old.upcalls@[i].base.sig)
                &&& new.upcalls@[i].ptr is Some
            },
{
    let ups = upcall_views(old.upcalls@);
    let ex = validation_errors(ups, expose, CallDirection::HostToGuest, old.error_unused_guest);
    if ex.len() > 0 {
        assert(false);
    }
    assert(missing_upcalls(ups, ptrs).len() == 0);
    lemma_no_missing(ups, ptrs);
    assert forall|i: int| 0 <= i < new.upcalls@.len() implies {
        &&& (#[trigger] new.upcalls@[i]).base == old.upcalls@[i].base
        &&& new.upcalls@[i].ptr == last_ptr(ptrs, old.upcalls@[i].base.sig)
        &&& new.upcalls@[i].ptr is Some
    } by {
        assert(ups[i] == old.upcalls@[i].base@);
        assert(last_ptr(ptrs, ups[i].sig) is Some);
    }
}

/// The first conversion error in `s`, if any.
pub open spec fn first_error<F>(s: Seq<Result<F, ConversionError>>) -> Option<ConversionError>
    decreases s.len(),
{
    if s.len() == 0 {
        None
    } else {
        match s[0] {
            Ok(_) => first_error(s.skip(1)),
            Err(e) => Some(e),
        }
    }
}

/// The converted functions of `s`, up to the first error.
pub open spec fn converted<F>(s: Seq<Result<F, ConversionError>>) -> Seq<F>
    decreases s.len(),
{
    if s.len() == 0 {
        seq![]
    } else {
        match s[0] {
            Ok(f) => seq![f] + converted(s.skip(1)),
            Err(_) => seq![],
        }
    }
}

/// Collect the converted host functions, stopping at the first that could
/// not be converted.
pub fn collect_hypercalls<C>(parsed: Vec<Result<hypercall::Function<C>, ConversionError>>) -> (r:
    Result<Vec<hypercall::Function<C>>, ConversionError>)
    ensures
        match first_error(parsed@) {
            Some(e) => r == Err::<Vec<hypercall::Function<C>>, ConversionError>(e),
            None => r matches Ok(v) && v@ == converted(parsed@),
        },
{
    let ghost orig = parsed@;
    let mut rest = parsed;
    let mut out: Vec<hypercall::Function<C>> = Vec::new();
    while rest.len() > 0
        invariant
            orig == parsed@,
            first_error(orig) == first_error(rest@),
            first_error(rest@) is None ==> converted(orig) == out@ + converted(rest@),
        decreases rest@.len(),
    {
        let ghost before = rest@;
        let x = rest.remove(0);
        assert(rest@ =~= before.skip(1));
        match x {
            Ok(f) => {
                let ghost prev = out@;
                out.push(f);
                proof {
                    if first_error(rest@) is None {
                        assert(converted(before) == seq![f] + converted(rest@));
                        assert(out@ + converted(rest@) =~= prev + (seq![f] + converted(
                            rest@,
                        )));
                    }
                }
            },
            Err(e) => {
                assert(first_error(before) == Some(e));
                return Err(e);
            },
        }
    }
    assert(out@ + converted(rest@) =~= out@);
    Ok(out)
}

/// References to the host functions behind the hypercalls.
fn hypercall_funcs<'a, C>(s: &'a Vec<hypercall::Function<C>>) -> (r: Vec<&'a Func>)
    ensures
        views(r@) == hypercall_views(s@),
{
    let mut r: Vec<&'a Func> = Vec::new();
    let mut i: usize = 0;
    while i < s.len()
        invariant
            0 <= i <= s@.len(),
            views(r@) == hypercall_views(s@).take(i as int),
        decreases s@.len() - i,
    {
        let ghost before = r@;
        r.push(&s[i].func);
        proof {
            assert(views(r@) =~= views(before).push(s@[i as int].func@));
            assert(hypercall_views(s@).take(i + 1) =~= hypercall_views(s@).take(i as int).push(
                s@[i as int].func@,
            ));
        }
        i = i + 1;
    }
    assert(hypercall_views(s@).take(s@.len() as int) =~= hypercall_views(s@));
    r
}

/// References to the descriptions of the expected upcalls.
fn upcall_bases<'a>(s: &'a Vec<upcall::Function>) -> (r: Vec<&'a Func>)
    ensures
        views(r@) == upcall_views(s@),
{
    let mut r: Vec<&'a Func> = Vec::new();
    let mut i: usize = 0;
    while i < s.len()
        invariant
            0 <= i <= s@.len(),
            views(r@) == upcall_views(s@).take(i as int),
        decreases s@.len() - i,
    {
        let ghost before = r@;
        r.push(&s[i].base);
        proof {
            assert(views(r@) =~= views(before).push(s@[i as int].base@));
            assert(upcall_views(s@).take(i + 1) =~= upcall_views(s@).take(i as int).push(
                s@[i as int].base@,
            ));
        }
        i = i + 1;
    }
    assert(upcall_views(s@).take(s@.len() as int) =~= upcall_views(s@));
    r
}

/// The address of the last guest function in `ptrs` with signature `sig`.
pub fn find_upcall_ptr(ptrs: &[UpcallPtr], sig: u64) -> (r: Option<u64>)
    ensures
        r == last_ptr(ptrs@, sig),
{
    let mut i: usize = ptrs.len();
    assert(ptrs@.take(i as int) =~= ptrs@);
    while i > 0
        invariant
            0 <= i <= ptrs@.len(),
            last_ptr(ptrs@, sig) == last_ptr(ptrs@.take(i as int), sig),
        decreases i,
    {
        let ghost t = ptrs@.take(i as int);
        assert(t.drop_last() =~= ptrs@.take(i - 1));
        if ptrs[i - 1].sig == sig {
            return Some(ptrs[i - 1].func);
        }
        i = i - 1;
    }
    None
}

/// Links the functions a guest calls on the host and the functions the host
/// calls on the guest. `C` is what performs a hypercall.
pub struct Linker<C> {
    pub cfg: Config,
    pub hypercalls: Vec<hypercall::Function<C>>,
}

impl<C> Linker<C> {
    /// A linker with configuration `cfg` and no host functions yet.
    pub fn new(cfg: Config) -> (r: Result<Self, LinkError>)
        ensures
            r matches Ok(l) && l.cfg == cfg && l.hypercalls@.len() == 0,
    {
        Ok(Linker { cfg, hypercalls: Vec::new() })
    }

    /// Validate the hypercalls the guest expects (`bundle.host`) against
    /// the host functions `parsed` converted from their metadata, then link
    /// the upcalls the host expects with those the guest exposes.
    ///
    /// The first host function whose metadata could not be converted fails
    /// linking with `ParseError`; validation errors of the hypercalls come
    /// next, then those of the upcalls (see `upcalls_linked`). A single error
    /// is returned as itself, several joined.
    pub fn link(
        &mut self,
        parsed: Vec<Result<hypercall::Function<C>, ConversionError>>,
        bundle: &ExecBundle,
    ) -> (r: Result<(), LinkError>)
        ensures
            match first_error(parsed@) {
                Some(e) => r == Err::<(), LinkError>(LinkError::ParseError(e)) && *final(self) == *old(
                    self,
                ),
                None => {
                    let hx = validation_errors(
                        hypercall_views(converted(parsed@)),
                        calls_view(bundle.host@),
                        CallDirection::GuestToHost,
                        old(self).cfg.error_unused_host,
                    );
                    &&& final(self).hypercalls@ == converted(parsed@)
                    &&& hx.len() > 0 ==> joined_result(r, (), hx) && final(self).cfg == old(
                        self,
                    ).cfg
                    &&& hx.len() == 0 ==> upcalls_linked(
                        old(self).cfg,
                        final(self).cfg,
                        calls_view(bundle.expose@),
                        bundle.upcalls@,
                        r,
                    )
                },
            },
    {
        let hypercalls = match collect_hypercalls(parsed) {
            Ok(v) => v,
            Err(e) => {
                return Err(LinkError::ParseError(e));
            },
        };
        self.hypercalls = hypercalls;
        match self.link_hypercall(bundle.host.as_slice()) {
            Ok(()) => {},
            Err(e) => {
                return Err(e);
            },
        }
        self.link_upcall(bundle)
    }

    /// Link the upcalls the host expects with those the guest exposes (see
    /// `upcalls_linked`).
    fn link_upcall(&mut self, bundle: &ExecBundle) -> (r: Result<(), LinkError>)
        ensures
            final(self).hypercalls == old(self).hypercalls,
            upcalls_linked(
                old(self).cfg,
                final(self).cfg,
                calls_view(bundle.expose@),
                bundle.upcalls@,
                r,
            ),
    {
        let ghost ups = upcall_views(self.cfg.upcalls@);
        let checked = {
            let bases = upcall_bases(&self.cfg.upcalls);
            let result = ValidationResults::new(bases.as_slice(), bundle.expose.as_slice());
            result.into_error((), CallDirection::HostToGuest, self.cfg.error_unused_guest)
        };
        match checked {
            Ok(()) => {},
            Err(e) => {
                return Err(e);
            },
        }
        let ghost old_upcalls = self.cfg.upcalls@;
        let mut errs: Vec<LinkError> = Vec::new();
        let mut i: usize = 0;
        while i < self.cfg.upcalls.len()
            invariant
                0 <= i <= self.cfg.upcalls@.len(),
                self.cfg.upcalls@.len() == old_upcalls.len(),
                ups == upcall_views(old_upcalls),
                old_upcalls == old(self).cfg.upcalls@,
                self.hypercalls == old(self).hypercalls,
                self.cfg.error_unused_host == old(self).cfg.error_unused_host,
                self.cfg.error_unused_guest == old(self).cfg.error_unused_guest,
                validation_errors(
                    ups,
                    calls_view(bundle.expose@),
                    CallDirection::HostToGuest,
                    old(self).cfg.error_unused_guest,
                ).len() == 0,
                linked_upcalls(
                    old_upcalls.take(i as int),
                    self.cfg.upcalls@.take(i as int),
                    bundle.upcalls@,
                ),
                forall|j: int| i <= j < old_upcalls.len() ==> #[trigger] self.cfg.upcalls@[j]
                    == old_upcalls[j],
                errors_view(errs@) == missing_upcalls(ups.take(i as int), bundle.upcalls@),
            decreases old_upcalls.len() - i,
        {
            let sig = self.cfg.upcalls[i].base.sig;
            let found = find_upcall_ptr(bundle.upcalls.as_slice(), sig);
            let ghost errs_before = errs@;
            let ghost ups_before = self.cfg.upcalls@;
            match found {
                Some(ptr) => {
                    self.cfg.upcalls[i].link(ptr);
                },
                None => {
                    let e = LinkError::MissingUpcallImpl { func: self.cfg.upcalls[i].base.duplicate() };
                    errs.push(e);
                },
            }
            proof {
                assert(ups.take(i + 1).drop_last() =~= ups.take(i as int));
                assert(ups.take(i + 1).last() == old_upcalls[i as int].base@);
                assert(errors_view(errs@) =~= missing_upcalls(ups.take(i + 1), bundle.upcalls@));
                assert forall|j: int| 0 <= j < i + 1 implies {
                    &&& (#[trigger] self.cfg.upcalls@.take(i + 1)[j]).base == old_upcalls.take(
                        i + 1,
                    )[j].base
                    &&& self.cfg.upcalls@.take(i + 1)[j].ptr == match last_ptr(
                        bundle.upcalls@,
                        old_upcalls.take(i + 1)[j].base.sig,
                    ) {
                        Some(p) => Some(p),
                        None => old_upcalls.take(i + 1)[j].ptr,
                    }
                } by {
                    if j < i {
                        assert(self.cfg.upcalls@.take(i + 1)[j] == ups_before.take(i as int)[j]);
                    }
                }
            }
            i = i + 1;
        }
        proof {
            assert(ups.take(old_upcalls.len() as int) =~= ups);
            assert(old_upcalls.take(old_upcalls.len() as int) =~= old_upcalls);
            assert(self.cfg.upcalls@.take(old_upcalls.len() as int) =~= self.cfg.upcalls@);
        }
        LinkError::with_errors((), errs)
    }

    /// The upcalls and hypercalls, once linked.
    pub fn into_calls(self) -> (r: (Vec<upcall::Function>, Vec<hypercall::Function<C>>))
        ensures
            r.0 == self.cfg.upcalls,
            r.1 == self.hypercalls,
    {
        (self.cfg.upcalls, self.hypercalls)
    }

    /// Validate the hypercalls `guest` expects against the host functions.
    fn link_hypercall(&self, guest: &[crate::linker::FnCall]) -> (r: Result<(), LinkError>)
        ensures
            joined_result(
                r,
                (),
                validation_errors(
                    hypercall_views(self.hypercalls@),
                    calls_view(guest@),
                    CallDirection::GuestToHost,
                    self.cfg.error_unused_host,
                ),
            ),
    {
        let funcs = hypercall_funcs(&self.hypercalls);
        let result = ValidationResults::new(funcs.as_slice(), guest);
        result.into_error((), CallDirection::GuestToHost, self.cfg.error_unused_host)
    }
}

} // verus!
