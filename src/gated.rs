//! A cell that can only be opened while interrupts are masked.

use vstd::prelude::*;
use crate::critical::CriticalSection;

verus! {

/// Holds zero or one `T`. Every access takes a `CriticalSection`, so the
/// foreground loop and an interrupt handler never touch the value at the same
/// time.
pub struct GatedCell<T> {
    value: Option<T>,
}

impl<T> View for GatedCell<T> {
    type V = Option<T>;

    closed spec fn view(&self) -> Option<T> {
        self.value
    }
}

impl<T> GatedCell<T> {
    /// An empty cell, as it stands before initialization fills it.
    pub fn new() -> (c: GatedCell<T>)
        ensures
            c@ is None,
    {
        GatedCell { value: None }
    }

    /// Put `value` in the cell, handing back what it held before.
    pub fn replace(&mut self, _cs: &CriticalSection, value: T) -> (prev: Option<T>)
        ensures
            final(self)@ == Some(value),
            prev == old(self)@,
    {
        let prev = self.value.take();
        self.value = Some(value);
        prev
    }

    /// Whether the cell has been filled.
    pub fn is_set(&self, _cs: &CriticalSection) -> (r: bool)
        ensures
            r == self@ is Some,
    {
        self.value.is_some()
    }

    /// Mutable access to the whole `Option` for as long as the token is held.
    pub fn borrow_mut<'a>(&'a mut self, _cs: &'a CriticalSection) -> (r: &'a mut Option<T>)
        ensures
            *r == old(self)@,
            final(self)@ == *final(r),
    {
        &mut self.value
    }

    /// Mutable access to the value of a filled cell. An empty cell here means
    /// initialization went wrong, so callers must have filled it first.
    pub fn get_mut<'a>(&'a mut self, _cs: &'a CriticalSection) -> (r: &'a mut T)
        requires
            old(self)@ is Some,
        ensures
            *r == old(self)@->Some_0,
            final(self)@ == Some(*final(r)),
    {
        self.value.as_mut().unwrap()
    }
}

} // verus!
