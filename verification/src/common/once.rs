//! A cell that is written once at boot and read afterwards.
use vstd::prelude::*;
use std::mem::ManuallyDrop;

verus! {

/// A cell that starts empty and holds a value once `init` has run.
///
/// The value is never dropped: neither when `init` writes over it nor when
/// the cell itself goes away.
pub struct UnsafeOnceCell<T> {
    value: Option<ManuallyDrop<T>>,
}

impl<T> View for UnsafeOnceCell<T> {
    type V = Option<T>;

    closed spec fn view(&self) -> Option<T> {
        match self.value {
            Some(v) => Some(v@),
            None => None,
        }
    }
}

impl<T> UnsafeOnceCell<T> {
    /// An empty cell.
    pub fn new() -> (r: Self)
        ensures
            r@ == None::<T>,
    {
        UnsafeOnceCell { value: None }
    }

    /// Writes `val` into the cell. A value the cell held before is
    /// overwritten without being dropped.
    pub fn init(&mut self, val: T)
        ensures
            final(self)@ == Some(val),
    {
        self.value = Some(ManuallyDrop::new(val));
    }

    /// Whether `init` has run.
    pub fn is_initialized(&self) -> (r: bool)
        ensures
            r == self@.is_some(),
    {
        self.value.is_some()
    }

    /// The value last written; the cell must have been initialized.
    pub fn get(&self) -> (r: &T)
        requires
            self@.is_some(),
        ensures
            *r == self@->0,
    {
        let v: &ManuallyDrop<T> = self.value.as_ref().unwrap();
        &**v
    }
}

} // verus!
