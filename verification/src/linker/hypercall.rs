//! Functions the guest calls on the host.
use vstd::prelude::*;
use crate::linker::Func;

verus! {

/// A host function the guest may call, and what performs the call.
#[derive(Debug)]
pub struct Function<C> {
    pub func: Func,
    pub call: C,
}

} // verus!
