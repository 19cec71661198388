//! A cell that is written once, during initialization, and only read after.

use vstd::prelude::*;
use crate::critical::CriticalSection;

verus! {

/// The error of a second `OnceCell::set`: the cell already held a value,
/// which is kept.
#[derive(Debug, PartialEq, Eq, Structural)]
pub struct AlreadySet;

/// Holds zero or one `T`; the first `set` wins.
pub struct OnceCell<T> {
    value: Option<T>,
}

impl<T> View for OnceCell<T> {
    type V = Option<T>;

    closed spec fn view(&self) -> Option<T> {
        self.value
    }
}

/// What `set` leaves in a cell that held `held`, and whether it succeeded.
pub open spec fn set_outcome<T>(held: Option<T>, value: T) -> (Option<T>, bool) {
    match held {
        None => (Some(value), true),
        Some(v) => (Some(v), false),
    }
}

impl<T> OnceCell<T> {
    /// An empty cell.
    pub fn new() -> (c: OnceCell<T>)
        ensures
            c@ is None,
    {
        OnceCell { value: None }
    }

    /// Store `value` if the cell is empty; otherwise fail with `AlreadySet`
    /// and leave the value already there untouched.
    pub fn set(&mut self, _cs: &CriticalSection, value: T) -> (r: Result<(), AlreadySet>)
        ensures
            (final(self)@, r is Ok) == set_outcome(old(self)@, value),
    {
        if self.value.is_some() {
            Err(AlreadySet)
        } else {
            self.value = Some(value);
            Ok(())
        }
    }

    /// The value, once set.
    pub fn get(&self) -> (r: Option<&T>)
        ensures
            match self@ {
                Some(v) => r == Some(&v),
                None => r is None,
            },
    {
        self.value.as_ref()
    }
}

/// Setting a cell a second time fails, whatever the second value is, and the
/// cell keeps (and `get` returns) the first value.
pub proof fn lemma_second_set_keeps_first<T>(held: Option<T>, first: T, second: T)
    requires
        held is None,
    ensures
        set_outcome(held, first) == (Some(first), true),
        set_outcome(set_outcome(held, first).0, second) == (Some(first), false),
{
}

} // verus!
