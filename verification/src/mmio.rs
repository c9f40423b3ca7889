//! A memory-mapped register cell: the single abstraction point through
//! which register reads and writes pass.

use vstd::prelude::*;

verus! {

/// One register of a memory-mapped device, holding a value of width `T`.
pub struct Mmio<T> {
    value: T,
}

impl<T: Copy> Mmio<T> {
    /// The value the register holds.
    pub closed spec fn spec_value(&self) -> T {
        self.value
    }

    /// A register holding `value`.
    pub fn new(value: T) -> (r: Mmio<T>)
        ensures
            r.spec_value() == value,
    {
        Mmio { value }
    }

    /// Read the register.
    pub fn read(&self) -> (r: T)
        ensures
            r == self.spec_value(),
    {
        self.value
    }

    /// Write the register.
    pub fn write(&mut self, value: T)
        ensures
            final(self).spec_value() == value,
    {
        self.value = value;
    }
}

} // verus!
