//! The boxed form of an arena handle.

use vstd::prelude::*;

use crate::arena::{ArenaRef, Region};

verus! {

/// A copyable wrapper around the handle of one stored value. Two boxes are equal where
/// they stand for the same allocation, and boxes are ordered as their handles are.
#[derive(Copy, Clone, Eq, PartialEq, Ord, PartialOrd, Hash, Debug, Structural)]
pub struct ArenaBox(ArenaRef);

impl View for ArenaBox {
    type V = Region;

    closed spec fn view(&self) -> Region {
        self.0@
    }
}

impl ArenaBox {
    /// A box around `reference`.
    #[must_use]
    pub fn new(reference: ArenaRef) -> (boxed: ArenaBox)
        ensures
            boxed@ == reference@,
    {
        ArenaBox(reference)
    }

    /// The handle inside the box.
    #[must_use]
    pub fn as_ref(self) -> (reference: ArenaRef)
        ensures
            reference@ == self@,
    {
        self.0
    }
}

impl core::ops::Deref for ArenaBox {
    type Target = ArenaRef;

    fn deref(&self) -> (reference: &ArenaRef)
        ensures
            reference@ == self@,
    {
        &self.0
    }
}

} // verus!
