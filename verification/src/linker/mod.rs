//! Linking of the functions a guest calls on the host (hypercalls) and the
//! functions the host calls on the guest (upcalls).
use vstd::prelude::*;

pub mod errors;
pub mod validate;
pub mod linker;
pub mod upcall;
pub mod hypercall;
pub mod config;
pub mod linking;

verus! {

/// Direction of a call across the guest boundary.
#[derive(Debug, PartialEq, Eq, Structural, Copy, Clone, Hash)]
pub enum CallDirection {
    HostToGuest,
    GuestToHost,
}

impl CallDirection {
    /// A short description, such as `Host -> Guest`.
    pub fn to_string(&self) -> (r: String)
        ensures
            r@ == match self {
                CallDirection::HostToGuest => "Host -> Guest"@,
                CallDirection::GuestToHost => "Guest -> Host"@,
            },
    {
        match self {
            CallDirection::HostToGuest => String::from_str("Host -> Guest"),
            CallDirection::GuestToHost => String::from_str("Guest -> Host"),
        }
    }
}

/// What a call descriptor says, as plain values.
pub struct CallView {
    pub sig: u64,
    pub name: Seq<char>,
    pub params: Seq<Seq<char>>,
    pub output: Option<Seq<char>>,
}

pub open spec fn strings_view(s: Seq<String>) -> Seq<Seq<char>> {
    s.map_values(|x: String| x@)
}

pub open spec fn opt_view(o: Option<String>) -> Option<Seq<char>> {
    match o {
        Some(s) => Some(s@),
        None => None,
    }
}

/// A function as a guest executable declares it: its signature hash, its
/// name, and optionally the names of its parameter and return types.
#[derive(Debug)]
pub struct FnCall {
    pub sig: u64,
    pub name: String,
    pub debug_param_types: Vec<String>,
    pub debug_return_type: Option<String>,
}

impl View for FnCall {
    type V = CallView;

    open spec fn view(&self) -> CallView {
        CallView {
            sig: self.sig,
            name: self.name@,
            params: strings_view(self.debug_param_types@),
            output: opt_view(self.debug_return_type),
        }
    }
}

/// A function as the host knows it: signature hash, name, parameter type
/// names and the return type's name, if it returns a value.
#[derive(Debug)]
pub struct Func {
    pub sig: u64,
    pub name: String,
    pub params: Vec<String>,
    pub output: Option<String>,
}

impl View for Func {
    type V = CallView;

    open spec fn view(&self) -> CallView {
        CallView {
            sig: self.sig,
            name: self.name@,
            params: strings_view(self.params@),
            output: opt_view(self.output),
        }
    }
}

fn copy_strings(v: &Vec<String>) -> (r: Vec<String>)
    ensures
        r@ == v@,
{
    let mut r: Vec<String> = Vec::new();
    let mut i: usize = 0;
    while i < v.len()
        invariant
            0 <= i <= v@.len(),
            r@ == v@.take(i as int),
        decreases v@.len() - i,
    {
        r.push(v[i].clone());
        i = i + 1;
        assert(r@ =~= v@.take(i as int));
    }
    assert(v@.take(v@.len() as int) =~= v@);
    r
}

fn copy_opt(o: &Option<String>) -> (r: Option<String>)
    ensures
        r == *o,
{
    match o {
        Some(s) => Some(s.clone()),
        None => None,
    }
}

/// The texts of `s` with `sep` between each two.
pub open spec fn joined(s: Seq<Seq<char>>, sep: Seq<char>) -> Seq<char>
    decreases s.len(),
{
    if s.len() == 0 {
        seq![]
    } else if s.len() == 1 {
        s[0]
    } else {
        joined(s.drop_last(), sep) + sep + s.last()
    }
}

/// How a function reads: its name, its parameter types in parentheses,
/// separated by commas, and the return type after an arrow if it has one.
pub open spec fn call_text(c: CallView) -> Seq<char> {
    c.name + "("@ + joined(c.params, ", "@) + ")"@ + match c.output {
        Some(o) => " -> "@ + o,
        None => seq![],
    }
}

/// Append the texts `parts` to `s`, with `sep` between each two.
pub fn append_joined(s: &mut String, parts: &Vec<String>, sep: &str)
    ensures
        final(s)@ == old(s)@ + joined(strings_view(parts@), sep@),
{
    let ghost start = s@;
    let ghost all = strings_view(parts@);
    let mut i: usize = 0;
    while i < parts.len()
        invariant
            0 <= i <= parts@.len(),
            all == strings_view(parts@),
            s@ == start + joined(all.take(i as int), sep@),
        decreases parts@.len() - i,
    {
        let ghost before = s@;
        assert(all.take(i + 1).drop_last() =~= all.take(i as int));
        if i > 0 {
            s.append(sep);
        } else {
            assert(joined(all.take(0), sep@) =~= Seq::<char>::empty());
            assert(before =~= start);
        }
        s.append(parts[i].as_str());
        i = i + 1;
        assert(s@ =~= start + joined(all.take(i as int), sep@));
    }
    assert(all.take(parts@.len() as int) =~= all);
}

impl FnCall {
    /// An independent copy.
    pub fn duplicate(&self) -> (r: FnCall)
        ensures
            r@ == self@,
    {
        FnCall {
            sig: self.sig,
            name: self.name.clone(),
            debug_param_types: copy_strings(&self.debug_param_types),
            debug_return_type: copy_opt(&self.debug_return_type),
        }
    }
}

impl Func {
    /// How the function reads (see `call_text`), such as `f(u32, u8) -> u64`.
    pub fn to_string(&self) -> (r: String)
        ensures
            r@ == call_text(self@),
    {
        let mut s = self.name.clone();
        s.append("(");
        append_joined(&mut s, &self.params, ", ");
        s.append(")");
        match &self.output {
            Some(o) => {
                s.append(" -> ");
                s.append(o.as_str());
            },
            None => {},
        }
        proof {
            let v = self@;
            let tail = match v.output {
                Some(o) => " -> "@ + o,
                None => seq![],
            };
            assert(s@ =~= v.name + "("@ + joined(v.params, ", "@) + ")"@ + tail);
        }
        s
    }
}

impl Func {
    /// An independent copy.
    pub fn duplicate(&self) -> (r: Func)
        ensures
            r@ == self@,
    {
        Func {
            sig: self.sig,
            name: self.name.clone(),
            params: copy_strings(&self.params),
            output: copy_opt(&self.output),
        }
    }
}


/// A guest function the guest executable exposes to the host: its
/// signature and its address in the guest.
#[derive(Debug, Clone, Copy, PartialEq, Eq, Structural)]
pub struct UpcallPtr {
    pub sig: u64,
    pub func: u64,
}

} // verus!
