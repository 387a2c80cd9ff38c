//! The element interface the persistent containers build on: elements can
//! be copied exactly and compared, and both operations mean what they say
//! at the spec level.
use vstd::prelude::*;

verus! {

/// An element that can be duplicated exactly and tested for equality.
pub trait Item: Sized {
    /// An exact copy: the result is spec-equal to the value it copies.
    fn dup(&self) -> (r: Self)
        ensures
            r == *self,
    ;

    /// Decide spec equality.
    fn same(&self, other: &Self) -> (r: bool)
        ensures
            r == (self == other),
    ;
}

impl Item for i32 {
    fn dup(&self) -> i32 {
        *self
    }

    fn same(&self, other: &Self) -> bool {
        *self == *other
    }
}

} // verus!
