//! Comparing the functions one side provides with those the other side
//! expects: by name and by signature.
use vstd::prelude::*;
use crate::linker::{CallView, FnCall, Func};

verus! {

/// A function descriptor with a signature and a name.
pub trait Described: View<V = CallView> {
    fn sig_of(&self) -> (r: u64)
        ensures
            r == self@.sig,
    ;

    fn name_of(&self) -> (r: &String)
        ensures
            r@ == self@.name,
    ;
}

impl Described for FnCall {
    fn sig_of(&self) -> (r: u64) {
        self.sig
    }

    fn name_of(&self) -> (r: &String) {
        &self.name
    }
}

impl Described for Func {
    fn sig_of(&self) -> (r: u64) {
        self.sig
    }

    fn name_of(&self) -> (r: &String) {
        &self.name
    }
}

pub open spec fn views<T: View<V = CallView>>(s: Seq<&T>) -> Seq<CallView> {
    s.map_values(|x: &T| x@)
}

/// Some descriptor in `s` has name `n`.
pub open spec fn has_name(s: Seq<CallView>, n: Seq<char>) -> bool {
    exists|k: int| 0 <= k < s.len() && #[trigger] s[k].name == n
}

/// Index of the first descriptor in `s` named `n`, or -1.
pub open spec fn name_index(s: Seq<CallView>, n: Seq<char>) -> int
    decreases s.len(),
{
    if s.len() == 0 {
        -1
    } else {
        let r = name_index(s.drop_last(), n);
        if r >= 0 {
            r
        } else if s.last().name == n {
            s.len() - 1
        } else {
            -1
        }
    }
}

/// `s` without the descriptors named `n`.
pub open spec fn without_name(s: Seq<CallView>, n: Seq<char>) -> Seq<CallView>
    decreases s.len(),
{
    if s.len() == 0 {
        seq![]
    } else if s.last().name == n {
        without_name(s.drop_last(), n)
    } else {
        without_name(s.drop_last(), n).push(s.last())
    }
}

/// One descriptor per name: the last one with that name, in the order of
/// those last occurrences (a later descriptor replaces an earlier one of the
/// same name).
pub open spec fn by_name(s: Seq<CallView>) -> Seq<CallView>
    decreases s.len(),
{
    if s.len() == 0 {
        seq![]
    } else {
        without_name(by_name(s.drop_last()), s.last().name).push(s.last())
    }
}

/// Index of the group of signature `sig`, or -1.
pub open spec fn sig_index(g: Seq<(u64, Seq<CallView>)>, sig: u64) -> int
    decreases g.len(),
{
    if g.len() == 0 {
        -1
    } else {
        let r = sig_index(g.drop_last(), sig);
        if r >= 0 {
            r
        } else if g.last().0 == sig {
            g.len() - 1
        } else {
            -1
        }
    }
}

/// The descriptors grouped by signature, groups in order of their first
/// member, members in order.
pub open spec fn by_sig(s: Seq<CallView>) -> Seq<(u64, Seq<CallView>)>
    decreases s.len(),
{
    if s.len() == 0 {
        seq![]
    } else {
        let g = by_sig(s.drop_last());
        let x = s.last();
        let k = sig_index(g, x.sig);
        if k >= 0 {
            g.update(k, (x.sig, g[k].1.push(x)))
        } else {
            g.push((x.sig, seq![x]))
        }
    }
}

/// The groups with more than one member.
pub open spec fn collisions(g: Seq<(u64, Seq<CallView>)>) -> Seq<(u64, Seq<CallView>)>
    decreases g.len(),
{
    if g.len() == 0 {
        seq![]
    } else if g.last().1.len() > 1 {
        collisions(g.drop_last()).push(g.last())
    } else {
        collisions(g.drop_last())
    }
}

/// The descriptors of `s` with no namesake in `other`.
pub open spec fn unmatched(s: Seq<CallView>, other: Seq<CallView>) -> Seq<CallView>
    decreases s.len(),
{
    if s.len() == 0 {
        seq![]
    } else if !has_name(other, s.last().name) {
        unmatched(s.drop_last(), other).push(s.last())
    } else {
        unmatched(s.drop_last(), other)
    }
}

/// Guest descriptors paired with their host namesake where the signatures differ.
pub open spec fn mismatches(guest: Seq<CallView>, host: Seq<CallView>) -> Seq<(CallView, CallView)>
    decreases guest.len(),
{
    if guest.len() == 0 {
        seq![]
    } else {
        let c = guest.last();
        let r = mismatches(guest.drop_last(), host);
        let k = name_index(host, c.name);
        if k >= 0 && host[k].sig != c.sig {
            r.push((c, host[k]))
        } else {
            r
        }
    }
}

proof fn lemma_name_index(s: Seq<CallView>, n: Seq<char>)
    ensures
        -1 <= name_index(s, n) < s.len(),
        name_index(s, n) >= 0 <==> has_name(s, n),
        name_index(s, n) >= 0 ==> s[name_index(s, n)].name == n && forall|j: int|
            0 <= j < name_index(s, n) ==> s[j].name != n,
    decreases s.len(),
{
    if s.len() > 0 {
        lemma_name_index(s.drop_last(), n);
        if has_name(s, n) {
            let k = choose|k: int| 0 <= k < s.len() && #[trigger] s[k].name == n;
            if k < s.len() - 1 {
                assert(s.drop_last()[k].name == n);
            }
        }
        if has_name(s.drop_last(), n) {
            let k = choose|k: int| 0 <= k < s.len() - 1 && #[trigger] s.drop_last()[k].name == n;
            assert(s[k].name == n);
        }
        let r = name_index(s, n);
        if r >= 0 {
            assert(s[r] == s.drop_last()[r] || r == s.len() - 1);
            assert forall|j: int| 0 <= j < r implies s[j].name != n by {
                assert(s[j] == s.drop_last()[j]);
            }
        }
    }
}

/// Whether two names are equal.
pub fn same_name(a: &String, b: &String) -> (r: bool)
    ensures
        r == (a@ == b@),
{
    a.eq(b)
}

proof fn lemma_sig_index(g: Seq<(u64, Seq<CallView>)>, sig: u64)
    ensures
        -1 <= sig_index(g, sig) < g.len(),
        sig_index(g, sig) >= 0 ==> g[sig_index(g, sig)].0 == sig,
        forall|j: int| 0 <= j < g.len() && #[trigger] g[j].0 == sig ==> sig_index(g, sig) >= 0
            && sig_index(g, sig) <= j,
    decreases g.len(),
{
    if g.len() > 0 {
        lemma_sig_index(g.drop_last(), sig);
        assert forall|j: int| 0 <= j < g.len() && #[trigger] g[j].0 == sig implies sig_index(
            g,
            sig,
        ) >= 0 && sig_index(g, sig) <= j by {
            if j < g.len() - 1 {
                assert(g.drop_last()[j].0 == sig);
            }
        }
    }
}

/// Keep the elements of `s` not named `n`.
fn drop_named<'a, T: Described>(s: &Vec<&'a T>, n: &String) -> (r: Vec<&'a T>)
    ensures
        views(r@) == without_name(views(s@), n@),
{
    let mut r: Vec<&'a T> = Vec::new();
    let mut i: usize = 0;
    while i < s.len()
        invariant
            0 <= i <= s@.len(),
            views(r@) == without_name(views(s@.take(i as int)), n@),
        decreases s@.len() - i,
    {
        let x = s[i];
        proof {
            assert(views(s@.take(i + 1)).drop_last() =~= views(s@.take(i as int)));
            assert(views(s@.take(i + 1)).last() == x@);
        }
        let ghost prev = r@;
        if !same_name(x.name_of(), n) {
            r.push(x);
            proof {
                assert(views(r@) =~= views(prev).push(x@));
            }
        }
        i = i + 1;
    }
    assert(s@.take(s@.len() as int) =~= s@);
    r
}


pub open spec fn groups_view<T: View<V = CallView>>(g: Seq<(u64, Vec<&T>)>) -> Seq<(u64, Seq<CallView>)> {
    g.map_values(|p: (u64, Vec<&T>)| (p.0, views(p.1@)))
}

/// One element per name: the last with that name.
fn index_by_name<'a, T: Described>(s: &[&'a T]) -> (r: Vec<&'a T>)
    ensures
        views(r@) == by_name(views(s@)),
{
    let mut r: Vec<&'a T> = Vec::new();
    let mut i: usize = 0;
    while i < s.len()
        invariant
            0 <= i <= s@.len(),
            views(r@) == by_name(views(s@.take(i as int))),
        decreases s@.len() - i,
    {
        let x = s[i];
        let mut kept = drop_named(&r, x.name_of());
        kept.push(x);
        proof {
            assert(views(s@.take(i + 1)).drop_last() =~= views(s@.take(i as int)));
            assert(views(s@.take(i + 1)).last() == x@);
            assert(views(kept@) =~= without_name(views(r@), x@.name).push(x@));
        }
        r = kept;
        i = i + 1;
    }
    assert(s@.take(s@.len() as int) =~= s@);
    r
}

/// Index of the group with signature `sig`, if there is one.
fn find_group<'a, T: Described>(g: &Vec<(u64, Vec<&'a T>)>, sig: u64) -> (r: Option<usize>)
    ensures
        match r {
            Some(k) => k == sig_index(groups_view(g@), sig),
            None => sig_index(groups_view(g@), sig) == -1,
        },
{
    proof {
        lemma_sig_index(groups_view(g@), sig);
    }
    let mut j: usize = 0;
    while j < g.len()
        invariant
            0 <= j <= g@.len(),
            forall|x: int| 0 <= x < j ==> (#[trigger] g@[x]).0 != sig,
        decreases g@.len() - j,
    {
        if g[j].0 == sig {
            proof {
                lemma_sig_index(groups_view(g@), sig);
                assert(groups_view(g@)[j as int].0 == sig);
                let si = sig_index(groups_view(g@), sig);
                assert(groups_view(g@)[si].0 == g@[si].0);
            }
            return Some(j);
        }
        j = j + 1;
    }
    proof {
        let si = sig_index(groups_view(g@), sig);
        if si >= 0 {
            assert(groups_view(g@)[si].0 == g@[si].0);
        }
    }
    None
}

/// The elements grouped by signature.
fn index_by_sig<'a, T: Described>(s: &[&'a T]) -> (r: Vec<(u64, Vec<&'a T>)>)
    ensures
        groups_view(r@) == by_sig(views(s@)),
{
    let mut g: Vec<(u64, Vec<&'a T>)> = Vec::new();
    let mut i: usize = 0;
    while i < s.len()
        invariant
            0 <= i <= s@.len(),
            groups_view(g@) == by_sig(views(s@.take(i as int))),
        decreases s@.len() - i,
    {
        let x = s[i];
        let sig = x.sig_of();
        let ghost before = g@;
        proof {
            assert(views(s@.take(i + 1)).drop_last() =~= views(s@.take(i as int)));
            assert(views(s@.take(i + 1)).last() == x@);
        }
        proof {
            lemma_sig_index(groups_view(before), sig);
        }
        match find_group(&g, sig) {
            Some(k) => {
                let mut entry: (u64, Vec<&'a T>) = (0, Vec::new());
                std::mem::swap(&mut entry, &mut g[k]);
                entry.1.push(x);
                let ghost e = entry;
                std::mem::swap(&mut entry, &mut g[k]);
                proof {
                    lemma_sig_index(groups_view(before), sig);
                    assert(g@ == before.update(k as int, e));
                    assert(groups_view(g@) =~= groups_view(before).update(
                        k as int,
                        (sig, groups_view(before)[k as int].1.push(x@)),
                    )) by {
                        assert(views(e.1@) =~= views(before[k as int].1@).push(x@));
                    }
                }
            },
            None => {
                let mut members: Vec<&'a T> = Vec::new();
                members.push(x);
                g.push((sig, members));
                proof {
                    assert(views(members@) =~= seq![x@]);
                    assert(groups_view(g@) =~= groups_view(before).push((sig, seq![x@])));
                }
            },
        }
        i = i + 1;
    }
    assert(s@.take(s@.len() as int) =~= s@);
    g
}

/// The groups with more than one member.
fn find_collisions<'a, T: Described>(items: &Vec<(u64, Vec<&'a T>)>) -> (r: Vec<(u64, Vec<&'a T>)>)
    ensures
        groups_view(r@) == collisions(groups_view(items@)),
{
    let mut r: Vec<(u64, Vec<&'a T>)> = Vec::new();
    let mut i: usize = 0;
    while i < items.len()
        invariant
            0 <= i <= items@.len(),
            groups_view(r@) == collisions(groups_view(items@.take(i as int))),
        decreases items@.len() - i,
    {
        let ghost before = r@;
        proof {
            assert(groups_view(items@.take(i + 1)).drop_last() =~= groups_view(items@.take(i as int)));
        }
        if items[i].1.len() > 1 {
            let members = copy_refs(&items[i].1);
            r.push((items[i].0, members));
            proof {
                assert(groups_view(r@) =~= groups_view(before).push(groups_view(items@)[i as int]));
            }
        }
        i = i + 1;
    }
    assert(items@.take(items@.len() as int) =~= items@);
    r
}

fn copy_refs<'a, T>(v: &Vec<&'a T>) -> (r: Vec<&'a T>)
    ensures
        r@ == v@,
{
    let mut r: Vec<&'a T> = Vec::new();
    let mut i: usize = 0;
    while i < v.len()
        invariant
            0 <= i <= v@.len(),
            r@ == v@.take(i as int),
        decreases v@.len() - i,
    {
        r.push(v[i]);
        i = i + 1;
        assert(r@ =~= v@.take(i as int));
    }
    assert(v@.take(v@.len() as int) =~= v@);
    r
}


/// Index of the first element named `n`, if there is one.
fn find_named<'a, T: Described>(s: &Vec<&'a T>, n: &String) -> (r: Option<usize>)
    ensures
        match r {
            Some(k) => k == name_index(views(s@), n@),
            None => !has_name(views(s@), n@),
        },
{
    let mut j: usize = 0;
    while j < s.len()
        invariant
            0 <= j <= s@.len(),
            forall|x: int| 0 <= x < j ==> (#[trigger] views(s@)[x]).name != n@,
        decreases s@.len() - j,
    {
        if same_name(s[j].name_of(), n) {
            proof {
                lemma_name_index(views(s@), n@);
                assert(views(s@)[j as int].name == n@);
            }
            return Some(j);
        }
        j = j + 1;
    }
    proof {
        lemma_name_index(views(s@), n@);
    }
    None
}

pub open spec fn pairs_view(s: Seq<(&FnCall, &Func)>) -> Seq<(CallView, CallView)> {
    s.map_values(|p: (&FnCall, &Func)| (p.0@, p.1@))
}

pub open spec fn calls_view(s: Seq<FnCall>) -> Seq<CallView> {
    s.map_values(|c: FnCall| c@)
}

/// Outcome of comparing host functions with what the guest declares.
#[derive(Debug)]
pub struct ValidationResults<'a> {
    pub guest_sig_collisions: Vec<(u64, Vec<&'a FnCall>)>,
    pub host_sig_collisions: Vec<(u64, Vec<&'a Func>)>,
    pub unmatched_guest: Vec<&'a FnCall>,
    pub unmatched_host: Vec<&'a Func>,
    pub sig_mismatches: Vec<(&'a FnCall, &'a Func)>,
}

impl<'a> ValidationResults<'a> {
    /// The outcome for host functions `host` and guest declarations `guest`:
    /// signatures shared by several functions on either side; per name (the
    /// last function of each name counts), guest functions with no host
    /// namesake, host functions with no guest namesake, and namesakes whose
    /// signatures differ.
    pub open spec fn spec_new(host: Seq<CallView>, guest: Seq<CallView>, r: Self) -> bool {
        let hr = by_name(host);
        let gr = by_name(guest);
        &&& groups_view(r.guest_sig_collisions@) == collisions(by_sig(guest))
        &&& groups_view(r.host_sig_collisions@) == collisions(by_sig(host))
        &&& views(r.unmatched_guest@) == unmatched(gr, hr)
        &&& views(r.unmatched_host@) == unmatched(hr, gr)
        &&& pairs_view(r.sig_mismatches@) == mismatches(gr, hr)
    }

    pub fn new(host: &[&'a Func], guest: &'a [FnCall]) -> (r: Self)
        ensures
            Self::spec_new(views(host@), calls_view(guest@), r),
    {
        let mut guest_refs: Vec<&'a FnCall> = Vec::new();
        let mut i: usize = 0;
        while i < guest.len()
            invariant
                0 <= i <= guest@.len(),
                views(guest_refs@) == calls_view(guest@).take(i as int),
            decreases guest@.len() - i,
        {
            let ghost before = guest_refs@;
            let c = &guest[i];
            guest_refs.push(c);
            proof {
                assert(guest_refs@ == before.push(c));
                assert(views(guest_refs@) =~= views(before).push(c@));
                assert(c@ == calls_view(guest@)[i as int]);
                assert(calls_view(guest@).take(i + 1) =~= calls_view(guest@).take(i as int).push(
                    calls_view(guest@)[i as int],
                ));
            }
            i = i + 1;
        }
        assert(calls_view(guest@).take(guest@.len() as int) =~= calls_view(guest@));
        // lookup structures for host and guest
        let (host_by_name, host_sigs) = Self::host_maps(host);
        let (guest_by_name, guest_sigs) = Self::guest_map(guest_refs.as_slice());
        let mut this = ValidationResults {
            guest_sig_collisions: find_collisions(&guest_sigs),
            host_sig_collisions: find_collisions(&host_sigs),
            unmatched_guest: Vec::new(),
            unmatched_host: Vec::new(),
            sig_mismatches: Vec::new(),
        };
        // check for mismatches
        this.analyze_matches(&host_by_name, &guest_by_name);
        this
    }

    /// No collision, no unmatched function and no mismatch.
    pub open spec fn spec_is_empty(&self) -> bool {
        &&& self.guest_sig_collisions@.len() == 0
        &&& self.host_sig_collisions@.len() == 0
        &&& self.unmatched_guest@.len() == 0
        &&& self.unmatched_host@.len() == 0
        &&& self.sig_mismatches@.len() == 0
    }

    pub fn is_empty(&self) -> (r: bool)
        ensures
            r == self.spec_is_empty(),
    {
        self.guest_sig_collisions.len() == 0 && self.host_sig_collisions.len() == 0
            && self.unmatched_guest.len() == 0 && self.unmatched_host.len() == 0
            && self.sig_mismatches.len() == 0
    }

    /// The host functions by name and by signature.
    fn host_maps(host: &[&'a Func]) -> (r: (Vec<&'a Func>, Vec<(u64, Vec<&'a Func>)>))
        ensures
            views(r.0@) == by_name(views(host@)),
            groups_view(r.1@) == by_sig(views(host@)),
    {
        (index_by_name(host), index_by_sig(host))
    }

    /// The guest declarations by name and by signature.
    fn guest_map(guest: &[&'a FnCall]) -> (r: (Vec<&'a FnCall>, Vec<(u64, Vec<&'a FnCall>)>))
        ensures
            views(r.0@) == by_name(views(guest@)),
            groups_view(r.1@) == by_sig(views(guest@)),
    {
        (index_by_name(guest), index_by_sig(guest))
    }

    /// Record namesakes with different signatures, and functions without a
    /// namesake on the other side.
    fn analyze_matches(&mut self, host_by_name: &Vec<&'a Func>, guest_by_name: &Vec<&'a FnCall>)
        requires
            old(self).unmatched_guest@.len() == 0,
            old(self).unmatched_host@.len() == 0,
            old(self).sig_mismatches@.len() == 0,
        ensures
            final(self).guest_sig_collisions == old(self).guest_sig_collisions,
            final(self).host_sig_collisions == old(self).host_sig_collisions,
            views(final(self).unmatched_guest@) == unmatched(
                views(guest_by_name@),
                views(host_by_name@),
            ),
            views(final(self).unmatched_host@) == unmatched(
                views(host_by_name@),
                views(guest_by_name@),
            ),
            pairs_view(final(self).sig_mismatches@) == mismatches(
                views(guest_by_name@),
                views(host_by_name@),
            ),
    {
        let gv = Ghost(views(guest_by_name@));
        let hv = Ghost(views(host_by_name@));
        let mut i: usize = 0;
        while i < guest_by_name.len()
            invariant
                0 <= i <= guest_by_name@.len(),
                gv@ == views(guest_by_name@),
                hv@ == views(host_by_name@),
                self.guest_sig_collisions == old(self).guest_sig_collisions,
                self.host_sig_collisions == old(self).host_sig_collisions,
                self.unmatched_host@.len() == 0,
                views(self.unmatched_guest@) == unmatched(gv@.take(i as int), hv@),
                pairs_view(self.sig_mismatches@) == mismatches(gv@.take(i as int), hv@),
            decreases guest_by_name@.len() - i,
        {
            let call = guest_by_name[i];
            proof {
                assert(gv@.take(i + 1).drop_last() =~= gv@.take(i as int));
                assert(gv@.take(i + 1).last() == call@);
                lemma_name_index(hv@, call@.name);
            }
            let ghost um = self.unmatched_guest@;
            let ghost sm = self.sig_mismatches@;
            match find_named(host_by_name, &call.name) {
                Some(k) => {
                    let func = host_by_name[k];
                    if call.sig != func.sig {
                        self.sig_mismatches.push((call, func));
                        proof {
                            assert(pairs_view(self.sig_mismatches@) =~= pairs_view(sm).push(
                                (call@, func@),
                            ));
                        }
                    }
                },
                None => {
                    self.unmatched_guest.push(call);
                    proof {
                        assert(views(self.unmatched_guest@) =~= views(um).push(call@));
                    }
                },
            }
            i = i + 1;
        }
        assert(gv@.take(guest_by_name@.len() as int) =~= gv@);
        let mut j: usize = 0;
        while j < host_by_name.len()
            invariant
                0 <= j <= host_by_name@.len(),
                gv@ == views(guest_by_name@),
                hv@ == views(host_by_name@),
                self.guest_sig_collisions == old(self).guest_sig_collisions,
                self.host_sig_collisions == old(self).host_sig_collisions,
                views(self.unmatched_guest@) == unmatched(gv@, hv@),
                pairs_view(self.sig_mismatches@) == mismatches(gv@, hv@),
                views(self.unmatched_host@) == unmatched(hv@.take(j as int), gv@),
            decreases host_by_name@.len() - j,
        {
            let func = host_by_name[j];
            proof {
                assert(hv@.take(j + 1).drop_last() =~= hv@.take(j as int));
                assert(hv@.take(j + 1).last() == func@);
            }
            let ghost uh = self.unmatched_host@;
            match find_named(guest_by_name, &func.name) {
                Some(_) => {
                    proof {
                        lemma_name_index(gv@, func@.name);
                    }
                },
                None => {
                    self.unmatched_host.push(func);
                    proof {
                        assert(views(self.unmatched_host@) =~= views(uh).push(func@));
                    }
                },
            }
            j = j + 1;
        }
        assert(hv@.take(host_by_name@.len() as int) =~= hv@);
    }
}

} // verus!
