//! A small value cell and slice helpers used by front ends.

use vstd::prelude::*;

verus! {

/// Whether two slices have one length.
pub fn slice_len<T>(a: &[T], b: &[T]) -> (r: bool)
    ensures
        r == (a@.len() == b@.len()),
{
    a.len() == b.len()
}

/// A cell holding one value, read by reference and replaced in place.
pub struct Shared<T> {
    value: T,
}

impl<T> Shared<T> {
    /// The mathematical content of the cell.
    pub closed spec fn view(&self) -> T {
        self.value
    }

    /// A cell around a value.
    pub fn new(value: T) -> (r: Self)
        ensures
            r@ == value,
    {
        Shared { value }
    }

    /// Borrow the held value.
    pub fn read(&self) -> (r: &T)
        ensures
            *r == self@,
    {
        &self.value
    }

    /// Borrow the held value for writing.
    pub fn write(&mut self) -> (r: &mut T)
        ensures
            *r == old(self)@,
            final(self)@ == *final(r),
    {
        &mut self.value
    }

    /// Swap a new value in and hand the old one back.
    pub fn replace(&mut self, value: T) -> (r: T)
        ensures
            r == old(self)@,
            final(self)@ == value,
    {
        let mut swapped = value;
        core::mem::swap(&mut self.value, &mut swapped);
        swapped
    }

    /// Apply a reading function to the held value.
    pub fn read_in_place<O, F: FnOnce(&T) -> O>(&self, f: F) -> (r: O)
        requires
            call_requires(f, (&self@,)),
        ensures
            call_ensures(f, (&self@,), r),
    {
        f(&self.value)
    }
}

impl<T> Shared<Option<T>> {
    /// Take the held value out, leaving nothing.
    pub fn take(&mut self) -> (r: Option<T>)
        ensures
            r == old(self)@,
            final(self)@ is None,
    {
        self.value.take()
    }
}

/// Whether two cells hold vectors of one length.
pub fn shared_slice_len<T>(a: &Shared<Vec<T>>, b: &Shared<Vec<T>>) -> (r: bool)
    ensures
        r == (a@@.len() == b@@.len()),
{
    a.read().len() == b.read().len()
}

} // verus!
