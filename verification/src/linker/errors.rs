//! A non-empty collection of errors.
use vstd::prelude::*;
use vstd::std_specs::iter::IteratorSpec;

verus! {

/// Several errors collected together.
#[derive(Debug)]
pub struct Errors<T>(Vec<T>);

impl<T> Errors<T> {
    /// The collected errors.
    pub closed spec fn view(&self) -> Seq<T> {
        self.0@
    }

    /// Collect `errors`; `None` when there are none.
    pub fn new(errors: Vec<T>) -> (r: Option<Self>)
        ensures
            r is Some == (errors@.len() > 0),
            r matches Some(e) ==> e@ == errors@,
    {
        if errors.is_empty() {
            return None;
        }
        Some(Self(errors))
    }

    /// Collect `errors`, which may be empty.
    pub fn new_unchecked(errors: Vec<T>) -> (r: Self)
        ensures
            r@ == errors@,
    {
        Self(errors)
    }

    pub fn is_empty(&self) -> (r: bool)
        ensures
            r == (self@.len() == 0),
    {
        self.0.is_empty()
    }

    pub fn len(&self) -> (r: usize)
        ensures
            r == self@.len(),
    {
        self.0.len()
    }

    pub fn iter(&self) -> (r: std::slice::Iter<'_, T>)
        ensures
            vstd::std_specs::slice::into_iter_elts(r) == self@,
    {
        broadcast use vstd::std_specs::slice::axiom_spec_slice_iter;

        let r = self.0.as_slice().iter();
        assert(r.remaining().unref() =~= self@);
        r
    }

    pub fn into_inner(self) -> (r: Vec<T>)
        ensures
            r@ == self@,
    {
        self.0
    }

    pub fn as_slice(&self) -> (r: &[T])
        ensures
            r@ == self@,
    {
        self.0.as_slice()
    }
}

} // verus!
