//! A value with a flag that records whether it changed since it was last synced.
use vstd::prelude::*;

verus! {

/// A value together with a dirty flag.
pub struct Dirty<T> {
    inner: T,
    dirty: bool,
}

impl<T> Dirty<T> {
    /// The wrapped value.
    pub closed spec fn value(&self) -> T {
        self.inner
    }

    /// Whether the value is marked as modified.
    pub closed spec fn is_dirty(&self) -> bool {
        self.dirty
    }

    /// Wrap `inner`, not marked as dirty.
    pub fn new(inner: T) -> (r: Self)
        ensures
            r.value() == inner,
            !r.is_dirty(),
    {
        Self { inner, dirty: false }
    }

    /// Get the underlying value.
    pub fn get(&self) -> (r: &T)
        ensures
            *r == self.value(),
    {
        &self.inner
    }

    /// Mutably get the underlying value and mark it as dirty.
    pub fn get_mut(&mut self) -> (r: &mut T)
        ensures
            *r == old(self).value(),
            final(self).value() == *final(r),
            final(self).is_dirty(),
    {
        self.dirty = true;
        &mut self.inner
    }

    /// Let `m` mutate the underlying value; `m` returns whether it changed
    /// it. The value is dirty afterwards if it was before or `m` changed it:
    /// a change not yet synchronised is never forgotten.
    pub fn mutate<M>(&mut self, m: M)
        where
            M: FnOnce(&mut T) -> bool,
        requires
            forall|t: &mut T| *t == old(self).value() ==> m.requires((t,)),
        ensures
            exists|t: &mut T, b: bool|
                *t == old(self).value() && *final(t) == final(self).value() && m.ensures((t,), b)
                    && final(self).is_dirty() == (old(self).is_dirty() || b),
    {
        let changed = m(&mut self.inner);
        self.dirty = self.dirty || changed;
    }

    /// Set the underlying value and mark it as dirty.
    pub fn set(&mut self, value: T)
        ensures
            final(self).value() == value,
            final(self).is_dirty(),
    {
        self.inner = value;
        self.dirty = true;
    }

    /// Clear the dirty state.
    pub fn clear(&mut self)
        ensures
            final(self).value() == old(self).value(),
            !final(self).is_dirty(),
    {
        self.dirty = false;
    }

    /// Explicitly mark as dirty.
    pub fn mark(&mut self)
        ensures
            final(self).value() == old(self).value(),
            final(self).is_dirty(),
    {
        self.dirty = true;
    }

    /// The dirty state.
    pub fn dirty(&self) -> (r: bool)
        ensures
            r == self.is_dirty(),
    {
        self.dirty
    }

    /// Run `f` on the value if it is dirty, without clearing the flag.
    pub fn if_dirty<F, R>(&self, f: F) -> (r: Option<R>)
        where
            F: FnOnce(&T) -> R,
        requires
            self.is_dirty() ==> f.requires((&self.value(),)),
        ensures
            r is Some == self.is_dirty(),
            r matches Some(x) ==> f.ensures((&self.value(),), x),
    {
        if self.dirty {
            Some(f(&self.inner))
        } else {
            None
        }
    }

    /// Run `f` on the value if it is dirty and clear the flag.
    pub fn sync<F, R>(&mut self, f: F) -> (r: Option<R>)
        where
            F: FnOnce(&T) -> R,
        requires
            old(self).is_dirty() ==> f.requires((&old(self).value(),)),
        ensures
            r is Some == old(self).is_dirty(),
            r matches Some(x) ==> f.ensures((&old(self).value(),), x),
            final(self).value() == old(self).value(),
            !final(self).is_dirty(),
    {
        if self.dirty {
            let r = f(&self.inner);
            self.clear();
            Some(r)
        } else {
            None
        }
    }
}

} // verus!
