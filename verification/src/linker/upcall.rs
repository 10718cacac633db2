//! Functions the host calls on the guest.
use vstd::prelude::*;
use crate::linker::Func;

verus! {

/// A guest function the host expects, and its address in the guest once linked.
#[derive(Debug)]
pub struct Function {
    pub base: Func,
    pub ptr: Option<u64>,
}

impl Function {
    /// An unlinked upcall named `name`, with signature `sig`, parameter type
    /// names `params` and the return type's name if it returns a value.
    pub fn new(name: &str, sig: u64, params: Vec<String>, output: Option<String>) -> (r: Function)
        ensures
            r.base.sig == sig,
            r.base.name@ == name@,
            r.base.params@ == params@,
            r.base.output == output,
            r.ptr is None,
    {
        Function {
            base: Func { sig, name: String::from_str(name), params, output },
            ptr: None,
        }
    }

    /// Record the guest address of the function.
    pub fn link(&mut self, ptr: u64)
        ensures
            final(self).base == old(self).base,
            final(self).ptr == Some(ptr),
    {
        self.ptr = Some(ptr);
    }

    /// The guest address, once linked.
    pub fn ptr(&self) -> (r: Option<u64>)
        ensures
            r == self.ptr,
    {
        self.ptr
    }
}

} // verus!
