//! Cells that hold one plain value and are read and written as a whole.
use vstd::prelude::*;

use crate::level::Level;

verus! {

/// A cell that holds a value.
pub trait Atomic: Sized {
    /// What the cell holds.
    type Underlying;

    /// The value in the cell.
    spec fn value(&self) -> Self::Underlying;

    /// A cell that holds the given value.
    fn new(initial: Self::Underlying) -> (cell: Self)
        ensures
            cell.value() == initial,
    ;

    /// Reads the value.
    fn load(&self) -> (val: Self::Underlying)
        ensures
            val == self.value(),
    ;

    /// Replaces the value.
    fn store(&mut self, val: Self::Underlying)
        ensures
            final(self).value() == val,
    ;
}

/// A cell that holds a truth value.
#[derive(Debug)]
pub struct AtomicBool {
    pub inner: bool,
}

impl Atomic for AtomicBool {
    type Underlying = bool;

    open spec fn value(&self) -> bool {
        self.inner
    }

    fn new(initial: bool) -> (cell: AtomicBool) {
        AtomicBool { inner: initial }
    }

    fn load(&self) -> (val: bool) {
        self.inner
    }

    fn store(&mut self, val: bool) {
        self.inner = val;
    }
}

/// A cell that holds a brightness level, kept as the word of its bits.
#[derive(Debug)]
pub struct AtomicF64 {
    pub inner: u64,
}

impl Atomic for AtomicF64 {
    type Underlying = Level;

    open spec fn value(&self) -> Level {
        Level { bits: self.inner }
    }

    fn new(initial: Level) -> (cell: AtomicF64) {
        AtomicF64 { inner: initial.bits }
    }

    fn load(&self) -> (val: Level) {
        Level { bits: self.inner }
    }

    fn store(&mut self, val: Level) {
        self.inner = val.bits;
    }
}

/// A cell holds the value that is in it.
pub proof fn law_cells_hold_their_values(flag: AtomicBool, number: AtomicF64)
    ensures
        flag.value() == flag.inner,
        number.value().bits == number.inner,
{
}

} // verus!
