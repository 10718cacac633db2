//! Errors of linking, and how validation outcomes turn into them.
use vstd::prelude::*;
use crate::linker::errors::Errors;
use crate::linker::validate::{
    ValidationResults, collisions, groups_view, mismatches, pairs_view, views,
};
use crate::linker::{CallDirection, CallView, FnCall, Func, call_text, joined};

verus! {

/// Guest functions that share a signature.
#[derive(Debug)]
pub struct GuestFnCollision(pub Vec<FnCall>);

/// Host functions that share a signature.
#[derive(Debug)]
pub struct HostFnCollision(pub Vec<Func>);

/// Why the metadata of a host function could not be read.
#[derive(Debug, PartialEq, Eq, Structural, Clone, Copy)]
pub enum ConversionError {
    /// A name is not valid UTF-8.
    InvalidString,
    /// The metadata is malformed.
    ParseError,
}

/// Defines possible errors that can occur during function linking.
#[derive(Debug)]
#[allow(inconsistent_fields)]
pub enum LinkError {
    /// The guest expects a hypercall that the host does not implement.
    MissingHypercallImpl { func: FnCall },
    /// The host expects an upcall that the guest does not implement.
    MissingUpcallImpl { func: Func },
    /// A function is found in both guest and host, but their signatures differ.
    SignatureMismatch { guest: FnCall, host: Func },
    /// A host function is not used by the guest.
    HostFunctionUnused { func: Func },
    /// A guest function is not used by the host.
    GuestFunctionUnused { func: FnCall },
    /// A function on the host side was found more than once.
    DuplicateHostFunction { direction: CallDirection, func: Func },
    /// A function on the guest side was found more than once.
    DuplicateGuestFunction { direction: CallDirection, func: FnCall },
    /// Guest functions share a signature.
    GuestSignatureCollision { funcs: GuestFnCollision },
    /// Host functions share a signature.
    HostSignatureCollision { funcs: HostFnCollision },
    /// The metadata of a host-exposed function could not be parsed.
    ParseError(ConversionError),
    /// Several linking errors.
    Joined(Errors<LinkError>),
}

/// What an error says, as plain values.
pub enum ErrorView {
    MissingHypercallImpl(CallView),
    MissingUpcallImpl(CallView),
    SignatureMismatch(CallView, CallView),
    HostFunctionUnused(CallView),
    GuestFunctionUnused(CallView),
    DuplicateHostFunction(CallDirection, CallView),
    DuplicateGuestFunction(CallDirection, CallView),
    GuestSignatureCollision(Seq<CallView>),
    HostSignatureCollision(Seq<CallView>),
    ParseError(ConversionError),
    Joined(nat),
}

pub open spec fn calls_seq_view(s: Seq<FnCall>) -> Seq<CallView> {
    s.map_values(|c: FnCall| c@)
}

pub open spec fn funcs_seq_view(s: Seq<Func>) -> Seq<CallView> {
    s.map_values(|c: Func| c@)
}

pub open spec fn error_view(e: LinkError) -> ErrorView {
    match e {
        LinkError::MissingHypercallImpl { func } => ErrorView::MissingHypercallImpl(func@),
        LinkError::MissingUpcallImpl { func } => ErrorView::MissingUpcallImpl(func@),
        LinkError::SignatureMismatch { guest, host } => ErrorView::SignatureMismatch(guest@, host@),
        LinkError::HostFunctionUnused { func } => ErrorView::HostFunctionUnused(func@),
        LinkError::GuestFunctionUnused { func } => ErrorView::GuestFunctionUnused(func@),
        LinkError::DuplicateHostFunction { direction, func } => ErrorView::DuplicateHostFunction(
            direction,
            func@,
        ),
        LinkError::DuplicateGuestFunction { direction, func } => ErrorView::DuplicateGuestFunction(
            direction,
            func@,
        ),
        LinkError::GuestSignatureCollision { funcs } => ErrorView::GuestSignatureCollision(
            calls_seq_view(funcs.0@),
        ),
        LinkError::HostSignatureCollision { funcs } => ErrorView::HostSignatureCollision(
            funcs_seq_view(funcs.0@),
        ),
        LinkError::ParseError(c) => ErrorView::ParseError(c),
        LinkError::Joined(es) => ErrorView::Joined(es@.len()),
    }
}

pub open spec fn errors_view(s: Seq<LinkError>) -> Seq<ErrorView> {
    s.map_values(|e: LinkError| error_view(e))
}

/// `r` is `Ok(value)` when `ex` is empty, the single error when it has one
/// element, and all of them joined when it has more.
pub open spec fn joined_result<T>(r: Result<T, LinkError>, value: T, ex: Seq<ErrorView>) -> bool {
    if ex.len() == 0 {
        r == Ok::<T, LinkError>(value)
    } else if ex.len() == 1 {
        r matches Err(e) && error_view(e) == ex[0]
    } else {
        r matches Err(LinkError::Joined(es)) && errors_view(es@) == ex
    }
}

impl LinkError {
    /// `Ok(ok)` without errors, the error itself for one, all of them joined
    /// for more.
    pub fn with_errors<T>(ok: T, errors: Vec<LinkError>) -> (r: Result<T, LinkError>)
        ensures
            joined_result(r, ok, errors_view(errors@)),
    {
        let mut errors = errors;
        let n = errors.len();
        if n == 0 {
            Ok(ok)
        } else if n == 1 {
            let e = errors.remove(0);
            Err(e)
        } else {
            Err(LinkError::from_errors(errors))
        }
    }

    /// One error as itself, several joined.
    pub fn from_errors(errors: Vec<LinkError>) -> (r: LinkError)
        requires
            errors@.len() >= 1,
        ensures
            errors@.len() == 1 ==> r == errors@[0],
            errors@.len() > 1 ==> (r matches LinkError::Joined(es) && es@ == errors@),
    {
        let mut errors = errors;
        if errors.len() == 1 {
            return errors.remove(0);
        }
        match Errors::new(errors) {
            Some(es) => LinkError::Joined(es),
            None => {
                assert(false);
                LinkError::ParseError(ConversionError::ParseError)
            },
        }
    }
}


/// The errors a validation outcome stands for: one per signature collision
/// among guest functions, one per collision among host functions, one per
/// signature mismatch, then, for calls from host to guest, one per expected
/// upcall the guest lacks and, if `err`, one per unused guest function; for
/// calls from guest to host, one per hypercall the host lacks and, if `err`,
/// one per unused host function.
pub open spec fn expected_errors(
    guest_coll: Seq<(u64, Seq<CallView>)>,
    host_coll: Seq<(u64, Seq<CallView>)>,
    mism: Seq<(CallView, CallView)>,
    unmatched_guest: Seq<CallView>,
    unmatched_host: Seq<CallView>,
    direction: CallDirection,
    err: bool,
) -> Seq<ErrorView> {
    guest_coll.map_values(|g: (u64, Seq<CallView>)| ErrorView::GuestSignatureCollision(g.1))
        + host_coll.map_values(|g: (u64, Seq<CallView>)| ErrorView::HostSignatureCollision(g.1))
        + mism.map_values(|p: (CallView, CallView)| ErrorView::SignatureMismatch(p.0, p.1))
        + match direction {
        CallDirection::HostToGuest => unmatched_host.map_values(
            |f: CallView| ErrorView::MissingUpcallImpl(f),
        ) + if err {
            unmatched_guest.map_values(|f: CallView| ErrorView::GuestFunctionUnused(f))
        } else {
            seq![]
        },
        CallDirection::GuestToHost => unmatched_guest.map_values(
            |f: CallView| ErrorView::MissingHypercallImpl(f),
        ) + if err {
            unmatched_host.map_values(|f: CallView| ErrorView::HostFunctionUnused(f))
        } else {
            seq![]
        },
    }
}

fn copy_calls(v: &Vec<&FnCall>) -> (r: Vec<FnCall>)
    ensures
        calls_seq_view(r@) == views(v@),
{
    let mut r: Vec<FnCall> = Vec::new();
    let mut i: usize = 0;
    while i < v.len()
        invariant
            0 <= i <= v@.len(),
            calls_seq_view(r@) == views(v@).take(i as int),
        decreases v@.len() - i,
    {
        let ghost prev = r@;
        let d = v[i].duplicate();
        r.push(d);
        proof {
            assert(d@ == views(v@)[i as int]);
            assert(calls_seq_view(r@) =~= calls_seq_view(prev).push(d@));
            assert(views(v@).take(i + 1) =~= views(v@).take(i as int).push(views(v@)[i as int]));
        }
        i = i + 1;
    }
    assert(views(v@).take(v@.len() as int) =~= views(v@));
    r
}

fn copy_funcs(v: &Vec<&Func>) -> (r: Vec<Func>)
    ensures
        funcs_seq_view(r@) == views(v@),
{
    let mut r: Vec<Func> = Vec::new();
    let mut i: usize = 0;
    while i < v.len()
        invariant
            0 <= i <= v@.len(),
            funcs_seq_view(r@) == views(v@).take(i as int),
        decreases v@.len() - i,
    {
        let ghost prev = r@;
        let d = v[i].duplicate();
        r.push(d);
        proof {
            assert(d@ == views(v@)[i as int]);
            assert(funcs_seq_view(r@) =~= funcs_seq_view(prev).push(d@));
            assert(views(v@).take(i + 1) =~= views(v@).take(i as int).push(views(v@)[i as int]));
        }
        i = i + 1;
    }
    assert(views(v@).take(v@.len() as int) =~= views(v@));
    r
}

proof fn lemma_push_view(prev: Seq<LinkError>, e: LinkError)
    ensures
        errors_view(prev.push(e)) == errors_view(prev).push(error_view(e)),
{
    assert(errors_view(prev.push(e)) =~= errors_view(prev).push(error_view(e)));
}

proof fn lemma_take_map<A, B>(s: Seq<A>, i: int, f: spec_fn(A) -> B)
    requires
        0 <= i < s.len(),
    ensures
        s.take(i + 1).map_values(f) == s.take(i).map_values(f).push(f(s[i])),
{
    assert(s.take(i + 1).map_values(f) =~= s.take(i).map_values(f).push(f(s[i])));
}

impl GuestFnCollision {
    /// Copies of the colliding guest functions.
    pub fn from_refs(funcs: &Vec<&FnCall>) -> (r: GuestFnCollision)
        ensures
            calls_seq_view(r.0@) == views(funcs@),
    {
        GuestFnCollision(copy_calls(funcs))
    }
}

impl HostFnCollision {
    /// Copies of the colliding host functions.
    pub fn from_refs(funcs: &Vec<&Func>) -> (r: HostFnCollision)
        ensures
            funcs_seq_view(r.0@) == views(funcs@),
    {
        HostFnCollision(copy_funcs(funcs))
    }

    /// The colliding functions as they read (see `call_text`), separated by
    /// commas.
    pub fn to_string(&self) -> (r: String)
        ensures
            r@ == joined(funcs_seq_view(self.0@).map_values(|c: CallView| call_text(c)), ","@),
    {
        let ghost all = funcs_seq_view(self.0@).map_values(|c: CallView| call_text(c));
        let mut s = String::new();
        let mut i: usize = 0;
        while i < self.0.len()
            invariant
                0 <= i <= self.0@.len(),
                all == funcs_seq_view(self.0@).map_values(|c: CallView| call_text(c)),
                s@ == joined(all.take(i as int), ","@),
            decreases self.0@.len() - i,
        {
            assert(all.take(i + 1).drop_last() =~= all.take(i as int));
            if i > 0 {
                s.append(",");
            } else {
                assert(joined(all.take(0), ","@) =~= Seq::<char>::empty());
            }
            let text = self.0[i].to_string();
            s.append(text.as_str());
            i = i + 1;
            assert(s@ =~= joined(all.take(i as int), ","@));
        }
        assert(all.take(self.0@.len() as int) =~= all);
        s
    }
}

impl<'a> ValidationResults<'a> {
    /// The errors this outcome stands for (see `expected_errors`), with
    /// unused functions only reported as errors when `err` holds: `Ok(value)`
    /// when there are none.
    pub fn into_error<T>(self, value: T, direction: CallDirection, err: bool) -> (r: Result<
        T,
        LinkError,
    >)
        ensures
            joined_result(
                r,
                value,
                expected_errors(
                    groups_view(self.guest_sig_collisions@),
                    groups_view(self.host_sig_collisions@),
                    pairs_view(self.sig_mismatches@),
                    views(self.unmatched_guest@),
                    views(self.unmatched_host@),
                    direction,
                    err,
                ),
            ),
    {
        let ghost ex = expected_errors(
            groups_view(self.guest_sig_collisions@),
            groups_view(self.host_sig_collisions@),
            pairs_view(self.sig_mismatches@),
            views(self.unmatched_guest@),
            views(self.unmatched_host@),
            direction,
            err,
        );
        if self.is_empty() {
            assert(ex =~= seq![]) by {
                if err {
                } else {
                }
            }
            return Ok(value);
        }
        let mut errors: Vec<LinkError> = Vec::new();
        // guest collisions
        let mut i: usize = 0;
        while i < self.guest_sig_collisions.len()
            invariant
                0 <= i <= self.guest_sig_collisions@.len(),
                errors_view(errors@) == groups_view(self.guest_sig_collisions@).take(
                    i as int,
                ).map_values(|g: (u64, Seq<CallView>)| ErrorView::GuestSignatureCollision(g.1)),
            decreases self.guest_sig_collisions@.len() - i,
        {
            let ghost prev = errors@;
            let e = LinkError::GuestSignatureCollision {
                funcs: GuestFnCollision::from_refs(&self.guest_sig_collisions[i].1),
            };
            errors.push(e);
            proof {
                lemma_push_view(prev, e);
                lemma_take_map(
                    groups_view(self.guest_sig_collisions@),
                    i as int,
                    |g: (u64, Seq<CallView>)| ErrorView::GuestSignatureCollision(g.1),
                );
            }
            i = i + 1;
        }
        let ghost a = errors_view(errors@);
        // host collisions
        let mut i: usize = 0;
        while i < self.host_sig_collisions.len()
            invariant
                0 <= i <= self.host_sig_collisions@.len(),
                errors_view(errors@) == a + groups_view(self.host_sig_collisions@).take(
                    i as int,
                ).map_values(|g: (u64, Seq<CallView>)| ErrorView::HostSignatureCollision(g.1)),
            decreases self.host_sig_collisions@.len() - i,
        {
            let ghost prev = errors@;
            let e = LinkError::HostSignatureCollision {
                funcs: HostFnCollision::from_refs(&self.host_sig_collisions[i].1),
            };
            errors.push(e);
            proof {
                lemma_push_view(prev, e);
                lemma_take_map(
                    groups_view(self.host_sig_collisions@),
                    i as int,
                    |g: (u64, Seq<CallView>)| ErrorView::HostSignatureCollision(g.1),
                );
            }
            i = i + 1;
        }
        let ghost b = errors_view(errors@);
        // signature mismatches
        let mut i: usize = 0;
        while i < self.sig_mismatches.len()
            invariant
                0 <= i <= self.sig_mismatches@.len(),
                errors_view(errors@) == b + pairs_view(self.sig_mismatches@).take(
                    i as int,
                ).map_values(|p: (CallView, CallView)| ErrorView::SignatureMismatch(p.0, p.1)),
            decreases self.sig_mismatches@.len() - i,
        {
            let ghost prev = errors@;
            let (g, h) = self.sig_mismatches[i];
            let e = LinkError::SignatureMismatch { guest: g.duplicate(), host: h.duplicate() };
            errors.push(e);
            proof {
                lemma_push_view(prev, e);
                lemma_take_map(
                    pairs_view(self.sig_mismatches@),
                    i as int,
                    |p: (CallView, CallView)| ErrorView::SignatureMismatch(p.0, p.1),
                );
            }
            i = i + 1;
        }
        let ghost c = errors_view(errors@);
        let ghost ug = views(self.unmatched_guest@);
        let ghost uh = views(self.unmatched_host@);
        match direction {
            CallDirection::HostToGuest => {
                // expected upcalls the guest lacks
                let mut i: usize = 0;
                while i < self.unmatched_host.len()
                    invariant
                        0 <= i <= self.unmatched_host@.len(),
                        uh == views(self.unmatched_host@),
                        errors_view(errors@) == c + uh.take(i as int).map_values(
                            |f: CallView| ErrorView::MissingUpcallImpl(f),
                        ),
                    decreases self.unmatched_host@.len() - i,
                {
                    let ghost prev = errors@;
                    let e = LinkError::MissingUpcallImpl { func: self.unmatched_host[i].duplicate() };
                    errors.push(e);
                    proof {
                        lemma_push_view(prev, e);
                        lemma_take_map(uh, i as int, |f: CallView| ErrorView::MissingUpcallImpl(f));
                    }
                    i = i + 1;
                }
                let ghost d = errors_view(errors@);
                // unused guest functions are errors only when configured so
                if err {
                    let mut i: usize = 0;
                    while i < self.unmatched_guest.len()
                        invariant
                            0 <= i <= self.unmatched_guest@.len(),
                            ug == views(self.unmatched_guest@),
                            errors_view(errors@) == d + ug.take(i as int).map_values(
                                |f: CallView| ErrorView::GuestFunctionUnused(f),
                            ),
                        decreases self.unmatched_guest@.len() - i,
                    {
                        let ghost prev = errors@;
                        let e = LinkError::GuestFunctionUnused { func: self.unmatched_guest[i].duplicate() };
                        errors.push(e);
                        proof {
                            lemma_push_view(prev, e);
                            lemma_take_map(ug, i as int, |f: CallView| ErrorView::GuestFunctionUnused(f));
                        }
                        i = i + 1;
                    }
                }
            },
            CallDirection::GuestToHost => {
                // expected hypercalls the host lacks
                let mut i: usize = 0;
                while i < self.unmatched_guest.len()
                    invariant
                        0 <= i <= self.unmatched_guest@.len(),
                        ug == views(self.unmatched_guest@),
                        errors_view(errors@) == c + ug.take(i as int).map_values(
                            |f: CallView| ErrorView::MissingHypercallImpl(f),
                        ),
                    decreases self.unmatched_guest@.len() - i,
                {
                    let ghost prev = errors@;
                    let e = LinkError::MissingHypercallImpl { func: self.unmatched_guest[i].duplicate() };
                    errors.push(e);
                    proof {
                        lemma_push_view(prev, e);
                        lemma_take_map(ug, i as int, |f: CallView| ErrorView::MissingHypercallImpl(f));
                    }
                    i = i + 1;
                }
                let ghost d = errors_view(errors@);
                // unused host functions are errors only when configured so
                if err {
                    let mut i: usize = 0;
                    while i < self.unmatched_host.len()
                        invariant
                            0 <= i <= self.unmatched_host@.len(),
                            uh == views(self.unmatched_host@),
                            errors_view(errors@) == d + uh.take(i as int).map_values(
                                |f: CallView| ErrorView::HostFunctionUnused(f),
                            ),
                        decreases self.unmatched_host@.len() - i,
                    {
                        let ghost prev = errors@;
                        let e = LinkError::HostFunctionUnused { func: self.unmatched_host[i].duplicate() };
                        errors.push(e);
                        proof {
                            lemma_push_view(prev, e);
                            lemma_take_map(uh, i as int, |f: CallView| ErrorView::HostFunctionUnused(f));
                        }
                        i = i + 1;
                    }
                }
            },
        }
        proof {
            assert(groups_view(self.guest_sig_collisions@).take(
                self.guest_sig_collisions@.len() as int,
            ) =~= groups_view(self.guest_sig_collisions@));
            assert(groups_view(self.host_sig_collisions@).take(
                self.host_sig_collisions@.len() as int,
            ) =~= groups_view(self.host_sig_collisions@));
            assert(pairs_view(self.sig_mismatches@).take(self.sig_mismatches@.len() as int)
                =~= pairs_view(self.sig_mismatches@));
            assert(ug.take(ug.len() as int) =~= ug);
            assert(uh.take(uh.len() as int) =~= uh);
            assert(errors_view(errors@) =~= ex);
        }
        LinkError::with_errors(value, errors)
    }
}

} // verus!
